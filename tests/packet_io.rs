use minestodon::codec::PacketReader;
use minestodon::error::ProtocolError;
use minestodon::varint::{encode_var, write_var, VarInt};

fn read_var<V: VarInt + std::fmt::Debug + PartialEq>(expected: V, bytes: &[u8]) -> Result<(), ProtocolError> {
    let mut reader = PacketReader::new(bytes);
    assert_eq!(expected, reader.read_var::<V>()?);
    Ok(())
}

fn write_var_test<V: VarInt>(var: V, expected: &[u8]) -> Result<(), ProtocolError> {
    let mut buf = vec![];
    write_var(&mut buf, var);
    assert_eq!(expected, &buf[..]);
    assert_eq!(expected, &encode_var(var)[..]);
    Ok(())
}

#[test]
fn read_zero_var_i32() -> Result<(), ProtocolError> {
    read_var::<i32>(0, &[0])
}

#[test]
fn write_zero_var_i32() -> Result<(), ProtocolError> {
    write_var_test::<i32>(0, &[0])
}

#[test]
fn read_simple_var_i32() -> Result<(), ProtocolError> {
    read_var::<i32>(2, &[2])
}

#[test]
fn write_simple_var_i32() -> Result<(), ProtocolError> {
    write_var_test::<i32>(2, &[2])
}

#[test]
fn read_min_var_i32() -> Result<(), ProtocolError> {
    read_var(i32::MIN, &[0x80, 0x80, 0x80, 0x80, 0x08])
}

#[test]
fn write_min_var_i32() -> Result<(), ProtocolError> {
    write_var_test(i32::MIN, &[0x80, 0x80, 0x80, 0x80, 0x08])
}

#[test]
fn read_max_var_i32() -> Result<(), ProtocolError> {
    read_var(i32::MAX, &[0xff, 0xff, 0xff, 0xff, 0x07])
}

#[test]
fn write_max_var_i32() -> Result<(), ProtocolError> {
    write_var_test(i32::MAX, &[0xff, 0xff, 0xff, 0xff, 0x07])
}

#[test]
fn read_zero_var_i64() -> Result<(), ProtocolError> {
    read_var::<i64>(0, &[0])
}

#[test]
fn write_zero_var_i64() -> Result<(), ProtocolError> {
    write_var_test::<i64>(0, &[0])
}

#[test]
fn read_simple_var_i64() -> Result<(), ProtocolError> {
    read_var::<i64>(2, &[2])
}

#[test]
fn write_simple_var_i64() -> Result<(), ProtocolError> {
    write_var_test::<i64>(2, &[2])
}

#[test]
fn read_min_var_i64() -> Result<(), ProtocolError> {
    read_var(
        i64::MIN,
        &[0x80, 0x80, 0x80, 0x80, 0x80, 0x80, 0x80, 0x80, 0x80, 0x01],
    )
}

#[test]
fn write_min_var_i64() -> Result<(), ProtocolError> {
    write_var_test(
        i64::MIN,
        &[0x80, 0x80, 0x80, 0x80, 0x80, 0x80, 0x80, 0x80, 0x80, 0x01],
    )
}

#[test]
fn read_max_var_i64() -> Result<(), ProtocolError> {
    read_var(
        i64::MAX,
        &[0xff, 0xff, 0xff, 0xff, 0xff, 0xff, 0xff, 0xff, 0x7f],
    )
}

#[test]
fn write_max_var_i64() -> Result<(), ProtocolError> {
    write_var_test(
        i64::MAX,
        &[0xff, 0xff, 0xff, 0xff, 0xff, 0xff, 0xff, 0xff, 0x7f],
    )
}

const TEST_STRING: &str = "Hello Minestodon";

fn test_string_bytes() -> Vec<u8> {
    let mut buf = vec![];
    write_var::<i32>(&mut buf, TEST_STRING.len() as i32);
    buf.extend_from_slice(TEST_STRING.as_bytes());
    buf
}

#[test]
fn read_string() -> Result<(), ProtocolError> {
    let buf = test_string_bytes();
    let string = PacketReader::new(&buf[..]).read_string()?;
    assert_eq!(TEST_STRING, string);
    Ok(())
}

#[test]
fn write_str() -> Result<(), ProtocolError> {
    let mut buf = vec![];
    minestodon::codec::write_str(&mut buf, TEST_STRING)?;
    assert_eq!(test_string_bytes(), buf);
    Ok(())
}
