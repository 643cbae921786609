use vstd::prelude::*;

use crate::codec::{be_bytes, Uuid};
use crate::error::ProtocolError;
use crate::text::{
    decimal_of, legacy_of, plain_of, push_char, push_decimal, push_str, Text, ESCAPE_CHAR,
};

verus! {

/// What the server tells clients about itself before they log in.
pub struct Listing {
    pub version: ListingVersion,
    pub players: ListingPlayers,
    pub motd: Text,
    pub icon: Option<String>,
}

/// The protocol number and the name of the supported version.
pub struct ListingVersion {
    pub value: i32,
    pub name: String,
}

pub struct ListingPlayers {
    pub current: i32,
    pub max: i32,
    pub sample: Option<Vec<ListingPlayer>>,
}

pub struct ListingPlayer {
    pub name: String,
    pub id: Uuid,
}

/// The text of a legacy ping answer. Clients before 1.4 send nothing after
/// the `0xFE` and get `motd§current§max` with the plain MOTD; later ones get
/// `§1`, protocol, version name, legacy MOTD, current and max players,
/// separated by NUL characters.
pub open spec fn legacy_response_text(old_format: bool, l: &Listing) -> Seq<char> {
    if old_format {
        plain_of(l.motd@) + seq![ESCAPE_CHAR] + decimal_of(l.players.current as int) + seq![
            ESCAPE_CHAR,
        ] + decimal_of(l.players.max as int)
    } else {
        seq![ESCAPE_CHAR, '1', '\0'] + decimal_of(l.version.value as int) + seq!['\0']
            + l.version.name@ + seq!['\0'] + legacy_of(l.motd@) + seq!['\0'] + decimal_of(
            l.players.current as int,
        ) + seq!['\0'] + decimal_of(l.players.max as int)
    }
}

/// The UTF-16 code units of one character.
pub open spec fn utf16_units(c: char) -> Seq<u16> {
    if (c as u32) < 0x1_0000 {
        seq![(c as u32) as u16]
    } else {
        let v = ((c as u32) - 0x1_0000) as nat;
        seq![(0xD800 + v / 0x400) as u16, (0xDC00 + v % 0x400) as u16]
    }
}

/// UTF-16 code units of a string.
pub open spec fn utf16_of(s: Seq<char>) -> Seq<u16>
    decreases s.len(),
{
    if s.len() == 0 {
        Seq::empty()
    } else {
        utf16_of(s.drop_last()) + utf16_units(s.last())
    }
}

/// Big-endian bytes of code units.
pub open spec fn units_be(u: Seq<u16>) -> Seq<u8>
    decreases u.len(),
{
    if u.len() == 0 {
        Seq::empty()
    } else {
        units_be(u.drop_last()) + be_bytes(u.last() as nat, 2)
    }
}

/// A legacy ping answer on the wire: `0xFF`, the length in UTF-16 code
/// units, then the text in UTF-16BE.
pub open spec fn legacy_response_bytes(text: Seq<char>) -> Seq<u8> {
    seq![0xFFu8] + be_bytes(utf16_of(text).len(), 2) + units_be(utf16_of(text))
}

proof fn lemma_units_be_push(u: Seq<u16>, w: u16)
    ensures
        units_be(u.push(w)) == units_be(u) + be_bytes(w as nat, 2),
{
    assert(u.push(w).drop_last() == u);
}

proof fn lemma_utf16_push(s: Seq<char>, c: char)
    ensures
        utf16_of(s.push(c)) == utf16_of(s) + utf16_units(c),
{
    assert(s.push(c).drop_last() == s);
}

/// The text of a legacy ping answer.
pub fn legacy_response_string(old_format: bool, listing: &Listing) -> (r: String)
    ensures
        r@ == legacy_response_text(old_format, listing),
{
    let mut s = String::new();
    if old_format {
        let motd = listing.motd.to_plain_string();
        push_str(&mut s, motd.as_str());
        push_char(&mut s, ESCAPE_CHAR);
        push_decimal(&mut s, listing.players.current as i64);
        push_char(&mut s, ESCAPE_CHAR);
        push_decimal(&mut s, listing.players.max as i64);
    } else {
        push_char(&mut s, ESCAPE_CHAR);
        push_char(&mut s, '1');
        push_char(&mut s, '\0');
        push_decimal(&mut s, listing.version.value as i64);
        push_char(&mut s, '\0');
        push_str(&mut s, listing.version.name.as_str());
        push_char(&mut s, '\0');
        let motd = listing.motd.to_legacy_string();
        push_str(&mut s, motd.as_str());
        push_char(&mut s, '\0');
        push_decimal(&mut s, listing.players.current as i64);
        push_char(&mut s, '\0');
        push_decimal(&mut s, listing.players.max as i64);
    }
    assert(s@ =~= legacy_response_text(old_format, listing));
    s
}

/// The UTF-16 code units of `text`.
pub fn utf16_units_of(text: &str) -> (r: Vec<u16>)
    ensures
        r@ == utf16_of(text@),
{
    let chars = crate::text::collect_chars(text);
    let mut units: Vec<u16> = Vec::new();
    let mut i: usize = 0;
    while i < chars.len()
        invariant
            i <= chars@.len(),
            chars@ == text@,
            units@ == utf16_of(chars@.subrange(0, i as int)),
        decreases chars.len() - i,
    {
        let ch = chars[i];
        let c = ch as u32;
        proof {
            vstd::utf8::char_is_scalar(ch);
        }
        let ghost before = units@;
        if c < 0x1_0000 {
            units.push(c as u16);
        } else {
            let v = c - 0x1_0000;
            assert(v < 0x10_0000);
            let hi: u16 = (0xD800 + v / 0x400) as u16;
            let lo: u16 = (0xDC00 + v % 0x400) as u16;
            assert(hi as nat == 0xD800 + (v as nat) / 0x400);
            assert(lo as nat == 0xDC00 + (v as nat) % 0x400);
            units.push(hi);
            units.push(lo);
        }
        proof {
            let p = chars@.subrange(0, i + 1 as int);
            assert(p == chars@.subrange(0, i as int).push(chars@[i as int]));
            lemma_utf16_push(chars@.subrange(0, i as int), chars@[i as int]);
            assert(units@ =~= before + utf16_units(chars@[i as int]));
        }
        i = i + 1;
    }
    assert(chars@.subrange(0, chars@.len() as int) == chars@);
    units
}

/// Encodes a legacy ping answer; fails when the text takes more than
/// 65535 UTF-16 code units.
pub fn legacy_response(text: &str) -> (r: Result<Vec<u8>, ProtocolError>)
    ensures
        match r {
            Ok(b) => utf16_of(text@).len() <= 0xFFFF && b@ == legacy_response_bytes(text@),
            Err(e) => utf16_of(text@).len() > 0xFFFF && e == ProtocolError::LengthOverflow,
        },
{
    let units = utf16_units_of(text);
    if units.len() > 0xFFFF {
        return Err(ProtocolError::LengthOverflow);
    }
    let mut out: Vec<u8> = Vec::new();
    out.push(0xFF);
    crate::codec::write_u16(&mut out, units.len() as u16);
    let ghost head = out@;
    let mut k: usize = 0;
    while k < units.len()
        invariant
            k <= units@.len(),
            out@ == head + units_be(units@.subrange(0, k as int)),
        decreases units.len() - k,
    {
        crate::codec::write_u16(&mut out, units[k]);
        proof {
            assert(units@.subrange(0, k + 1 as int) == units@.subrange(0, k as int).push(
                units@[k as int],
            ));
            lemma_units_be_push(units@.subrange(0, k as int), units@[k as int]);
        }
        k = k + 1;
    }
    assert(units@.subrange(0, units@.len() as int) == units@);
    assert(out@ =~= legacy_response_bytes(text@));
    Ok(out)
}

} // verus!
