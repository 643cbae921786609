use vstd::prelude::*;
use vstd::string::*;

use crate::codec::{be_bytes, push_all, write_i32, write_i64, write_u16, write_u8};
use crate::error::ProtocolError;
use crate::varint::VarInt;

verus! {

/// A named-binary-tag value. Floating-point tags hold the IEEE 754 bits of
/// their value.
pub enum Nbt {
    Byte(i8),
    Int(i32),
    Long(i64),
    Float(u32),
    Double(u64),
    String(String),
    List(Vec<Nbt>),
    Compound(Vec<(String, Nbt)>),
}

/// A tag as a mathematical value.
pub enum NbtView {
    Byte(i8),
    Int(i32),
    Long(i64),
    Float(u32),
    Double(u64),
    Str(Seq<char>),
    List(Seq<NbtView>),
    Compound(Seq<(Seq<char>, NbtView)>),
}

pub open spec fn nbt_view(t: &Nbt) -> NbtView
    decreases t,
{
    match t {
        Nbt::Byte(v) => NbtView::Byte(*v),
        Nbt::Int(v) => NbtView::Int(*v),
        Nbt::Long(v) => NbtView::Long(*v),
        Nbt::Float(v) => NbtView::Float(*v),
        Nbt::Double(v) => NbtView::Double(*v),
        Nbt::String(s) => NbtView::Str(s@),
        Nbt::List(v) => NbtView::List(nbts_view(v@)),
        Nbt::Compound(v) => NbtView::Compound(entries_view(v@)),
    }
}

pub open spec fn nbts_view(s: Seq<Nbt>) -> Seq<NbtView>
    decreases s,
{
    if s.len() == 0 {
        Seq::empty()
    } else {
        nbts_view(s.subrange(0, s.len() - 1)).push(nbt_view(&s[s.len() - 1]))
    }
}

pub open spec fn entries_view(s: Seq<(String, Nbt)>) -> Seq<(Seq<char>, NbtView)>
    decreases s,
{
    if s.len() == 0 {
        Seq::empty()
    } else {
        entries_view(s.subrange(0, s.len() - 1)).push(
            (s[s.len() - 1].0@, nbt_view(&s[s.len() - 1].1)),
        )
    }
}

impl View for Nbt {
    type V = NbtView;

    open spec fn view(&self) -> NbtView {
        nbt_view(self)
    }
}

/// The type id of a tag.
pub open spec fn tag_id(t: NbtView) -> u8 {
    match t {
        NbtView::Byte(_) => 1,
        NbtView::Int(_) => 3,
        NbtView::Long(_) => 4,
        NbtView::Float(_) => 5,
        NbtView::Double(_) => 6,
        NbtView::Str(_) => 8,
        NbtView::List(_) => 9,
        NbtView::Compound(_) => 10,
    }
}

/// The element type of a list: that of its first element, or `0` (end)
/// when it is empty.
pub open spec fn list_type(s: Seq<NbtView>) -> u8 {
    if s.len() == 0 {
        0
    } else {
        tag_id(s[0])
    }
}

/// One UTF-16 code unit in Java's modified UTF-8: one byte for 1 to 0x7F,
/// two bytes up to 0x7FF (so NUL is `C0 80`), three bytes above.
pub open spec fn mutf8_unit(u: u16) -> Seq<u8> {
    if 1 <= u && u < 0x80 {
        seq![u as u8]
    } else if u < 0x800 {
        seq![(0xC0 + u / 64) as u8, (0x80 + u % 64) as u8]
    } else {
        seq![(0xE0 + u / 4096) as u8, (0x80 + (u / 64) % 64) as u8, (0x80 + u % 64) as u8]
    }
}

/// Code units in modified UTF-8, one after another.
pub open spec fn mutf8_units(us: Seq<u16>) -> Seq<u8>
    decreases us.len(),
{
    if us.len() == 0 {
        Seq::empty()
    } else {
        mutf8_units(us.drop_last()) + mutf8_unit(us.last())
    }
}

/// A string in Java's modified UTF-8: its UTF-16 code units (characters
/// outside the basic plane as surrogate pairs), each encoded alone.
pub open spec fn mutf8(s: Seq<char>) -> Seq<u8> {
    mutf8_units(crate::status::utf16_of(s))
}

/// A string in NBT: its modified UTF-8 length as an unsigned 16-bit
/// integer, then the bytes.
pub open spec fn nbt_string(s: Seq<char>) -> Seq<u8> {
    be_bytes(mutf8(s).len(), 2) + mutf8(s)
}

pub open spec fn nbt_string_fits(s: Seq<char>) -> bool {
    mutf8(s).len() <= 0xFFFF
}

/// The payload of a tag: a list holds its element type, its length and the
/// elements' payloads; a compound holds type, name and payload of each entry,
/// then an end byte.
pub open spec fn payload(t: NbtView) -> Seq<u8>
    decreases t,
{
    match t {
        NbtView::Byte(v) => seq![crate::packets::i8_byte(v)],
        NbtView::Int(v) => be_bytes(v.wire(), 4),
        NbtView::Long(v) => be_bytes(v.wire(), 8),
        NbtView::Float(v) => be_bytes(v as nat, 4),
        NbtView::Double(v) => be_bytes(v as nat, 8),
        NbtView::Str(s) => nbt_string(s),
        NbtView::List(s) => seq![list_type(s)] + be_bytes((s.len() as i32).wire(), 4)
            + payloads(s),
        NbtView::Compound(es) => entries_bytes(es) + seq![0u8],
    }
}

pub open spec fn payloads(s: Seq<NbtView>) -> Seq<u8>
    decreases s,
{
    if s.len() == 0 {
        Seq::empty()
    } else {
        payloads(s.subrange(0, s.len() - 1)) + payload(s[s.len() - 1])
    }
}

pub open spec fn entries_bytes(es: Seq<(Seq<char>, NbtView)>) -> Seq<u8>
    decreases es,
{
    if es.len() == 0 {
        Seq::empty()
    } else {
        entries_bytes(es.subrange(0, es.len() - 1)) + seq![tag_id(es[es.len() - 1].1)]
            + nbt_string(es[es.len() - 1].0) + payload(es[es.len() - 1].1)
    }
}

/// Every string fits its 16-bit length, every list its 32-bit length, and
/// the elements of a list share one type.
pub open spec fn encodable(t: NbtView) -> bool
    decreases t,
{
    match t {
        NbtView::Str(s) => nbt_string_fits(s),
        NbtView::List(s) => s.len() <= i32::MAX && (forall|i: int|
            0 <= i < s.len() ==> tag_id(#[trigger] s[i]) == list_type(s)) && all_encodable(s),
        NbtView::Compound(es) => entries_encodable(es),
        _ => true,
    }
}

pub open spec fn all_encodable(s: Seq<NbtView>) -> bool
    decreases s,
{
    s.len() == 0 || (all_encodable(s.subrange(0, s.len() - 1)) && encodable(s[s.len() - 1]))
}

pub open spec fn entries_encodable(es: Seq<(Seq<char>, NbtView)>) -> bool
    decreases es,
{
    es.len() == 0 || (entries_encodable(es.subrange(0, es.len() - 1)) && nbt_string_fits(
        es[es.len() - 1].0,
    ) && encodable(es[es.len() - 1].1))
}

/// A whole document: a compound tag with an empty name.
pub open spec fn document(t: NbtView) -> Seq<u8> {
    seq![10u8] + nbt_string(Seq::empty()) + payload(t)
}

/// Writes a string with its 16-bit length.
pub fn write_nbt_string(out: &mut Vec<u8>, s: &str) -> (r: Result<(), ProtocolError>)
    ensures
        r is Ok <==> nbt_string_fits(s@),
        r is Ok ==> final(out)@ == old(out)@ + nbt_string(s@),
        r is Err ==> r == Err::<(), ProtocolError>(ProtocolError::LengthOverflow),
{
    let units = crate::status::utf16_units_of(s);
    let mut bytes: Vec<u8> = Vec::new();
    let mut i: usize = 0;
    while i < units.len()
        invariant
            i <= units@.len(),
            units@ == crate::status::utf16_of(s@),
            bytes@ == mutf8_units(units@.subrange(0, i as int)),
        decreases units.len() - i,
    {
        let u = units[i];
        let ghost before = bytes@;
        if 1 <= u && u < 0x80 {
            bytes.push(u as u8);
        } else if u < 0x800 {
            bytes.push((0xC0 + u / 64) as u8);
            bytes.push((0x80 + u % 64) as u8);
        } else {
            bytes.push((0xE0 + u / 4096) as u8);
            bytes.push((0x80 + (u / 64) % 64) as u8);
            bytes.push((0x80 + u % 64) as u8);
        }
        proof {
            let p = units@.subrange(0, i + 1 as int);
            assert(p.drop_last() == units@.subrange(0, i as int));
            assert(p.last() == u);
            assert(bytes@ =~= before + mutf8_unit(u));
        }
        i = i + 1;
    }
    assert(units@.subrange(0, units@.len() as int) == units@);
    if bytes.len() > 0xFFFF {
        return Err(ProtocolError::LengthOverflow);
    }
    write_u16(out, bytes.len() as u16);
    push_all(out, bytes.as_slice());
    assert(final(out)@ =~= old(out)@ + nbt_string(s@));
    Ok(())
}

proof fn lemma_nbts_view(s: Seq<Nbt>)
    ensures
        nbts_view(s).len() == s.len(),
        forall|i: int| 0 <= i < s.len() ==> #[trigger] nbts_view(s)[i] == nbt_view(&s[i]),
    decreases s.len(),
{
    if s.len() > 0 {
        let p = s.subrange(0, s.len() - 1);
        lemma_nbts_view(p);
        assert forall|i: int| 0 <= i < s.len() implies #[trigger] nbts_view(s)[i] == nbt_view(
            &s[i],
        ) by {
            if i < s.len() - 1 {
                assert(p[i] == s[i]);
            }
        }
    }
}

proof fn lemma_entries_view(s: Seq<(String, Nbt)>)
    ensures
        entries_view(s).len() == s.len(),
        forall|i: int|
            0 <= i < s.len() ==> #[trigger] entries_view(s)[i] == (s[i].0@, nbt_view(&s[i].1)),
    decreases s.len(),
{
    if s.len() > 0 {
        let p = s.subrange(0, s.len() - 1);
        lemma_entries_view(p);
        assert forall|i: int| 0 <= i < s.len() implies #[trigger] entries_view(s)[i] == (
            s[i].0@,
            nbt_view(&s[i].1),
        ) by {
            if i < s.len() - 1 {
                assert(p[i] == s[i]);
            }
        }
    }
}

proof fn lemma_all_encodable(s: Seq<NbtView>)
    ensures
        all_encodable(s) <==> forall|i: int| 0 <= i < s.len() ==> encodable(#[trigger] s[i]),
    decreases s.len(),
{
    if s.len() > 0 {
        let p = s.subrange(0, s.len() - 1);
        lemma_all_encodable(p);
        if forall|i: int| 0 <= i < s.len() ==> encodable(#[trigger] s[i]) {
            assert forall|i: int| 0 <= i < p.len() implies encodable(#[trigger] p[i]) by {
                assert(p[i] == s[i]);
            }
        }
        if all_encodable(s) {
            assert forall|i: int| 0 <= i < s.len() implies encodable(#[trigger] s[i]) by {
                if i < s.len() - 1 {
                    assert(p[i] == s[i]);
                }
            }
        }
    }
}

proof fn lemma_entries_encodable(es: Seq<(Seq<char>, NbtView)>)
    ensures
        entries_encodable(es) <==> forall|i: int|
            0 <= i < es.len() ==> nbt_string_fits((#[trigger] es[i]).0) && encodable(es[i].1),
    decreases es.len(),
{
    if es.len() > 0 {
        let p = es.subrange(0, es.len() - 1);
        lemma_entries_encodable(p);
        if forall|i: int|
            0 <= i < es.len() ==> nbt_string_fits((#[trigger] es[i]).0) && encodable(es[i].1) {
            assert forall|i: int| 0 <= i < p.len() implies nbt_string_fits((#[trigger] p[i]).0)
                && encodable(p[i].1) by {
                assert(p[i] == es[i]);
            }
        }
        if entries_encodable(es) {
            assert forall|i: int| 0 <= i < es.len() implies nbt_string_fits(#[trigger] es[i].0)
                && encodable(es[i].1) by {
                if i < es.len() - 1 {
                    assert(p[i] == es[i]);
                }
            }
        }
    }
}

fn write_list(items: &Vec<Nbt>, out: &mut Vec<u8>) -> (r: Result<(), ProtocolError>)
    ensures
        r is Ok <==> encodable(NbtView::List(nbts_view(items@))),
        r is Ok ==> final(out)@ == old(out)@ + payload(NbtView::List(nbts_view(items@))),
        r is Err ==> r == Err::<(), ProtocolError>(ProtocolError::LengthOverflow),
    decreases items,
{
    let ghost s = nbts_view(items@);
    proof {
        lemma_nbts_view(items@);
        lemma_all_encodable(s);
    }
    if items.len() > 0x7fff_ffff {
        return Err(ProtocolError::LengthOverflow);
    }
    let ty: u8 = if items.len() == 0 {
        0
    } else {
        items[0].tag_id()
    };
    let mut buf: Vec<u8> = Vec::new();
    write_u8(&mut buf, ty);
    write_i32(&mut buf, items.len() as i32);
    let ghost head = buf@;
    let mut i: usize = 0;
    while i < items.len()
        invariant
            i <= items@.len() <= i32::MAX,
            s == nbts_view(items@),
            s.len() == items@.len(),
            forall|k: int| 0 <= k < items@.len() ==> #[trigger] s[k] == nbt_view(&items@[k]),
            all_encodable(s) <==> forall|k: int| 0 <= k < s.len() ==> encodable(#[trigger] s[k]),
            ty == list_type(s),
            buf@ == head + payloads(s.subrange(0, i as int)),
            forall|k: int| 0 <= k < i ==> encodable(#[trigger] s[k]),
            forall|k: int| 0 <= k < i ==> tag_id(#[trigger] s[k]) == list_type(s),
        decreases items.len() - i,
    {
        if items[i].tag_id() != ty {
            assert(tag_id(s[i as int]) != list_type(s));
            return Err(ProtocolError::LengthOverflow);
        }
        let res = items[i].write_payload(&mut buf);
        if res.is_err() {
            assert(!encodable(s[i as int]));
            return Err(ProtocolError::LengthOverflow);
        }
        proof {
            let p = s.subrange(0, i + 1 as int);
            assert(p.subrange(0, i as int) == s.subrange(0, i as int));
            assert(p[i as int] == s[i as int]);
        }
        i = i + 1;
    }
    assert(s.subrange(0, s.len() as int) == s);
    push_all(out, buf.as_slice());
    assert(final(out)@ =~= old(out)@ + payload(NbtView::List(s)));
    Ok(())
}

fn write_entries(entries: &Vec<(String, Nbt)>, out: &mut Vec<u8>) -> (r: Result<(), ProtocolError>)
    ensures
        r is Ok <==> encodable(NbtView::Compound(entries_view(entries@))),
        r is Ok ==> final(out)@ == old(out)@ + payload(NbtView::Compound(entries_view(entries@))),
        r is Err ==> r == Err::<(), ProtocolError>(ProtocolError::LengthOverflow),
    decreases entries,
{
    let ghost es = entries_view(entries@);
    proof {
        lemma_entries_view(entries@);
        lemma_entries_encodable(es);
    }
    let mut buf: Vec<u8> = Vec::new();
    let mut i: usize = 0;
    while i < entries.len()
        invariant
            i <= entries@.len(),
            es == entries_view(entries@),
            es.len() == entries@.len(),
            forall|k: int|
                0 <= k < entries@.len() ==> #[trigger] es[k] == (
                    entries@[k].0@,
                    nbt_view(&entries@[k].1),
                ),
            entries_encodable(es) <==> forall|k: int|
                0 <= k < es.len() ==> nbt_string_fits((#[trigger] es[k]).0) && encodable(es[k].1),
            buf@ == entries_bytes(es.subrange(0, i as int)),
            forall|k: int| 0 <= k < i ==> nbt_string_fits((#[trigger] es[k]).0) && encodable(es[k].1),
        decreases entries.len() - i,
    {
        let name = &entries[i].0;
        let value = &entries[i].1;
        write_u8(&mut buf, value.tag_id());
        let r1 = write_nbt_string(&mut buf, name.as_str());
        if r1.is_err() {
            assert(!nbt_string_fits(es[i as int].0));
            return Err(ProtocolError::LengthOverflow);
        }
        let r2 = value.write_payload(&mut buf);
        if r2.is_err() {
            assert(!encodable(es[i as int].1));
            return Err(ProtocolError::LengthOverflow);
        }
        proof {
            let p = es.subrange(0, i + 1 as int);
            assert(p.subrange(0, i as int) == es.subrange(0, i as int));
            assert(p[i as int] == es[i as int]);
            assert(es[i as int].0 == name@);
            assert(es[i as int].1 == value@);
            assert(nbt_string_fits(es[i as int].0) && encodable(es[i as int].1));
        }
        i = i + 1;
    }
    assert(es.subrange(0, es.len() as int) == es);
    write_u8(&mut buf, 0);
    push_all(out, buf.as_slice());
    Ok(())
}

/// A tag stored in a compound under `name`.
pub open spec fn entry(name: Seq<char>, value: NbtView) -> Seq<(Seq<char>, NbtView)> {
    seq![(name, value)]
}

proof fn lemma_entries_push(s: Seq<(String, Nbt)>, e: (String, Nbt))
    ensures
        entries_view(s.push(e)) == entries_view(s).push((e.0@, e.1@)),
{
    assert(s.push(e).subrange(0, s.len() as int) == s);
}

/// Appends the entry `name: value`.
pub fn push_entry(v: &mut Vec<(String, Nbt)>, name: &str, value: Nbt)
    ensures
        entries_view(final(v)@) == entries_view(old(v)@) + entry(name@, value@),
{
    let ghost before = v@;
    let ghost val = value@;
    let e = (String::from_str(name), value);
    proof {
        lemma_entries_push(before, e);
    }
    v.push(e);
    assert(entries_view(before).push((name@, val)) =~= entries_view(before) + entry(name@, val));
}

/// A string tag holding a literal.
pub fn string_tag(s: &str) -> (r: Nbt)
    ensures
        r@ == NbtView::Str(s@),
{
    Nbt::String(String::from_str(s))
}

/// A value with an NBT form.
pub trait ToNbt {
    spec fn nbt_spec(&self) -> NbtView;

    fn element_nbt(&self) -> (r: Nbt)
        ensures
            r@ == self.nbt_spec(),
    ;
}

impl ToNbt for () {
    open spec fn nbt_spec(&self) -> NbtView {
        NbtView::Compound(Seq::empty())
    }

    fn element_nbt(&self) -> (r: Nbt) {
        let v: Vec<(String, Nbt)> = Vec::new();
        assert(entries_view(v@) =~= Seq::<(Seq<char>, NbtView)>::empty());
        Nbt::Compound(v)
    }
}

impl Nbt {
    /// The type id of this tag.
    pub fn tag_id(&self) -> (r: u8)
        ensures
            r == tag_id(self@),
    {
        match self {
            Nbt::Byte(_) => 1,
            Nbt::Int(_) => 3,
            Nbt::Long(_) => 4,
            Nbt::Float(_) => 5,
            Nbt::Double(_) => 6,
            Nbt::String(_) => 8,
            Nbt::List(_) => 9,
            Nbt::Compound(_) => 10,
        }
    }

    /// Appends the payload of this tag; fails when it is not encodable.
    pub fn write_payload(&self, out: &mut Vec<u8>) -> (r: Result<(), ProtocolError>)
        ensures
            r is Ok <==> encodable(self@),
            r is Ok ==> final(out)@ == old(out)@ + payload(self@),
            r is Err ==> r == Err::<(), ProtocolError>(ProtocolError::LengthOverflow),
        decreases self,
    {
        match self {
            Nbt::Byte(v) => {
                crate::packets::write_i8(out, *v);
                Ok(())
            },
            Nbt::Int(v) => {
                write_i32(out, *v);
                Ok(())
            },
            Nbt::Long(v) => {
                write_i64(out, *v);
                Ok(())
            },
            Nbt::Float(v) => {
                proof {
                    reveal_with_fuel(crate::codec::pow256, 5);
                }
                crate::codec::push_be(out, *v as u64, 4);
                Ok(())
            },
            Nbt::Double(v) => {
                crate::codec::write_u64(out, *v);
                Ok(())
            },
            Nbt::String(s) => write_nbt_string(out, s.as_str()),
            Nbt::List(items) => write_list(items, out),
            Nbt::Compound(entries) => write_entries(entries, out),
        }
    }

    /// This tag as a whole document with an empty root name.
    pub fn to_document(&self) -> (r: Result<Vec<u8>, ProtocolError>)
        requires
            self@ is Compound,
        ensures
            r is Ok <==> encodable(self@),
            r matches Ok(b) ==> b@ == document(self@),
    {
        let mut out: Vec<u8> = Vec::new();
        write_u8(&mut out, 10);
        proof {
            reveal_strlit("");
            assert(""@ =~= Seq::<char>::empty());
            assert(crate::status::utf16_of(Seq::<char>::empty()) =~= Seq::<u16>::empty());
            assert(mutf8(Seq::<char>::empty()) =~= Seq::<u8>::empty());
        }
        write_nbt_string(&mut out, "")?;
        self.write_payload(&mut out)?;
        Ok(out)
    }
}

} // verus!
