use vstd::prelude::*;

use crate::error::ProtocolError;
use vstd::string::StringExecFns;

verus! {

/// Relies on `String::push`: appends one character.
#[verifier::external_body]
pub(crate) fn push_char(s: &mut String, c: char)
    ensures
        final(s)@ == old(s)@.push(c),
{
    s.push(c)
}

/// Appends the characters of `t`.
pub(crate) fn push_str(s: &mut String, t: &str)
    ensures
        final(s)@ == old(s)@ + t@,
{
    s.append(t)
}

/// The decimal digits of `n`, most significant first.
pub open spec fn digits_of(n: nat) -> Seq<char>
    decreases n,
{
    if n < 10 {
        seq![('0' as nat + n) as char]
    } else {
        digits_of(n / 10).push(('0' as nat + n % 10) as char)
    }
}

/// The decimal rendering of `n`, with a leading `-` when negative.
pub open spec fn decimal_of(n: int) -> Seq<char> {
    if n < 0 {
        seq!['-'] + digits_of((-n) as nat)
    } else {
        digits_of(n as nat)
    }
}

fn push_digits(s: &mut String, n: u64)
    ensures
        final(s)@ == old(s)@ + digits_of(n as nat),
    decreases n,
{
    if n >= 10 {
        push_digits(s, n / 10);
    }
    let d = (n % 10) as u32;
    let c: char = if d == 0 {
        '0'
    } else if d == 1 {
        '1'
    } else if d == 2 {
        '2'
    } else if d == 3 {
        '3'
    } else if d == 4 {
        '4'
    } else if d == 5 {
        '5'
    } else if d == 6 {
        '6'
    } else if d == 7 {
        '7'
    } else if d == 8 {
        '8'
    } else {
        '9'
    };
    push_char(s, c);
    proof {
        if n < 10 {
            assert(old(s)@ + digits_of(n as nat) == old(s)@.push(c));
        } else {
            assert(digits_of(n as nat) == digits_of((n / 10) as nat).push(c));
        }
    }
}

/// Appends the decimal rendering of `n`.
pub fn push_decimal(s: &mut String, n: i64)
    ensures
        final(s)@ == old(s)@ + decimal_of(n as int),
{
    if n < 0 {
        push_char(s, '-');
        let m: u64 = (-(n as i128)) as u64;
        push_digits(s, m);
        assert(old(s)@.push('-') + digits_of(m as nat) == old(s)@ + (seq!['-'] + digits_of(
            m as nat,
        )));
    } else {
        push_digits(s, n as u64);
    }
}

/// The seventeen named colours, in the order of their legacy codes.
#[derive(Debug, Clone, Copy, PartialEq, Eq, Structural)]
pub enum NamedTextColor {
    Black,
    DarkBlue,
    DarkGreen,
    DarkAqua,
    DarkRed,
    DarkPurple,
    Gold,
    Gray,
    DarkGray,
    Blue,
    Green,
    Aqua,
    Red,
    LightPurple,
    Yellow,
    White,
    Reset,
}

/// The number of named colours.
pub const NAMED_COLOR_COUNT: usize = 17;

/// The named colour at position `i` of the enumeration.
pub open spec fn named_at(i: int) -> NamedTextColor {
    if i == 0 {
        NamedTextColor::Black
    } else if i == 1 {
        NamedTextColor::DarkBlue
    } else if i == 2 {
        NamedTextColor::DarkGreen
    } else if i == 3 {
        NamedTextColor::DarkAqua
    } else if i == 4 {
        NamedTextColor::DarkRed
    } else if i == 5 {
        NamedTextColor::DarkPurple
    } else if i == 6 {
        NamedTextColor::Gold
    } else if i == 7 {
        NamedTextColor::Gray
    } else if i == 8 {
        NamedTextColor::DarkGray
    } else if i == 9 {
        NamedTextColor::Blue
    } else if i == 10 {
        NamedTextColor::Green
    } else if i == 11 {
        NamedTextColor::Aqua
    } else if i == 12 {
        NamedTextColor::Red
    } else if i == 13 {
        NamedTextColor::LightPurple
    } else if i == 14 {
        NamedTextColor::Yellow
    } else if i == 15 {
        NamedTextColor::White
    } else {
        NamedTextColor::Reset
    }
}

/// The legacy code character of each named colour: `0`-`9`, `a`-`f`, `r`.
pub open spec fn legacy_char_of(c: NamedTextColor) -> char {
    match c {
        NamedTextColor::Black => '0',
        NamedTextColor::DarkBlue => '1',
        NamedTextColor::DarkGreen => '2',
        NamedTextColor::DarkAqua => '3',
        NamedTextColor::DarkRed => '4',
        NamedTextColor::DarkPurple => '5',
        NamedTextColor::Gold => '6',
        NamedTextColor::Gray => '7',
        NamedTextColor::DarkGray => '8',
        NamedTextColor::Blue => '9',
        NamedTextColor::Green => 'a',
        NamedTextColor::Aqua => 'b',
        NamedTextColor::Red => 'c',
        NamedTextColor::LightPurple => 'd',
        NamedTextColor::Yellow => 'e',
        NamedTextColor::White => 'f',
        NamedTextColor::Reset => 'r',
    }
}

/// The vanilla client's RGB value of each named colour.
pub open spec fn vanilla_of(c: NamedTextColor) -> Seq<u8> {
    match c {
        NamedTextColor::Black => seq![0u8, 0, 0],
        NamedTextColor::DarkBlue => seq![0u8, 0, 170],
        NamedTextColor::DarkGreen => seq![0u8, 170, 0],
        NamedTextColor::DarkAqua => seq![0u8, 170, 170],
        NamedTextColor::DarkRed => seq![170u8, 0, 0],
        NamedTextColor::DarkPurple => seq![170u8, 0, 170],
        NamedTextColor::Gold => seq![255u8, 170, 0],
        NamedTextColor::Gray => seq![170u8, 170, 170],
        NamedTextColor::DarkGray => seq![85u8, 85, 85],
        NamedTextColor::Blue => seq![85u8, 85, 255],
        NamedTextColor::Green => seq![85u8, 255, 85],
        NamedTextColor::Aqua => seq![85u8, 255, 255],
        NamedTextColor::Red => seq![255u8, 85, 85],
        NamedTextColor::LightPurple => seq![255u8, 85, 255],
        NamedTextColor::Yellow => seq![255u8, 255, 85],
        NamedTextColor::White => seq![255u8, 255, 255],
        NamedTextColor::Reset => seq![255u8, 255, 255],
    }
}

impl NamedTextColor {
    /// The colour at position `i` of the enumeration.
    pub fn at(i: usize) -> (r: NamedTextColor)
        requires
            i < NAMED_COLOR_COUNT,
        ensures
            r == named_at(i as int),
    {
        if i == 0 {
            NamedTextColor::Black
        } else if i == 1 {
            NamedTextColor::DarkBlue
        } else if i == 2 {
            NamedTextColor::DarkGreen
        } else if i == 3 {
            NamedTextColor::DarkAqua
        } else if i == 4 {
            NamedTextColor::DarkRed
        } else if i == 5 {
            NamedTextColor::DarkPurple
        } else if i == 6 {
            NamedTextColor::Gold
        } else if i == 7 {
            NamedTextColor::Gray
        } else if i == 8 {
            NamedTextColor::DarkGray
        } else if i == 9 {
            NamedTextColor::Blue
        } else if i == 10 {
            NamedTextColor::Green
        } else if i == 11 {
            NamedTextColor::Aqua
        } else if i == 12 {
            NamedTextColor::Red
        } else if i == 13 {
            NamedTextColor::LightPurple
        } else if i == 14 {
            NamedTextColor::Yellow
        } else if i == 15 {
            NamedTextColor::White
        } else {
            NamedTextColor::Reset
        }
    }

    /// The legacy code character of this colour.
    pub fn legacy_char(&self) -> (r: char)
        ensures
            r == legacy_char_of(*self),
    {
        match self {
            NamedTextColor::Black => '0',
            NamedTextColor::DarkBlue => '1',
            NamedTextColor::DarkGreen => '2',
            NamedTextColor::DarkAqua => '3',
            NamedTextColor::DarkRed => '4',
            NamedTextColor::DarkPurple => '5',
            NamedTextColor::Gold => '6',
            NamedTextColor::Gray => '7',
            NamedTextColor::DarkGray => '8',
            NamedTextColor::Blue => '9',
            NamedTextColor::Green => 'a',
            NamedTextColor::Aqua => 'b',
            NamedTextColor::Red => 'c',
            NamedTextColor::LightPurple => 'd',
            NamedTextColor::Yellow => 'e',
            NamedTextColor::White => 'f',
            NamedTextColor::Reset => 'r',
        }
    }

    /// The vanilla client's RGB value of this colour.
    pub fn vanilla(&self) -> (r: [u8; 3])
        ensures
            r@ == vanilla_of(*self),
    {
        let r: [u8; 3] = match self {
            NamedTextColor::Black => [0, 0, 0],
            NamedTextColor::DarkBlue => [0, 0, 170],
            NamedTextColor::DarkGreen => [0, 170, 0],
            NamedTextColor::DarkAqua => [0, 170, 170],
            NamedTextColor::DarkRed => [170, 0, 0],
            NamedTextColor::DarkPurple => [170, 0, 170],
            NamedTextColor::Gold => [255, 170, 0],
            NamedTextColor::Gray => [170, 170, 170],
            NamedTextColor::DarkGray => [85, 85, 85],
            NamedTextColor::Blue => [85, 85, 255],
            NamedTextColor::Green => [85, 255, 85],
            NamedTextColor::Aqua => [85, 255, 255],
            NamedTextColor::Red => [255, 85, 85],
            NamedTextColor::LightPurple => [255, 85, 255],
            NamedTextColor::Yellow => [255, 255, 85],
            NamedTextColor::White => [255, 255, 255],
            NamedTextColor::Reset => [255, 255, 255],
        };
        assert(r@ =~= vanilla_of(*self));
        r
    }
}

/// The bits of the squared CIE-Lab distance from colour `a` to colour `b`,
/// both given as RGB.
pub uninterp spec fn lab_distance_bits(a: Seq<u8>, b: Seq<u8>) -> u32;

/// Relies on lab's `Lab::from_rgb` and `Lab::squared_distance`: the squared
/// CIE-Lab distance between two RGB colours, as the bits of the `f32`. A sum
/// of squares is never negative nor NaN, so its bits order as its values do.
#[verifier::external_body]
fn lab_squared_distance_bits(a: [u8; 3], b: [u8; 3]) -> (r: u32)
    ensures
        r == lab_distance_bits(a@, b@),
{
    lab::Lab::from_rgb(&a).squared_distance(&lab::Lab::from_rgb(&b)).to_bits()
}

/// The distance of the named colour at position `i` from `rgb`.
pub open spec fn named_distance(rgb: Seq<u8>, i: int) -> u32 {
    lab_distance_bits(vanilla_of(named_at(i)), rgb)
}

/// The distances of the seventeen named colours from `rgb`, in order.
pub open spec fn named_distances(rgb: Seq<u8>) -> Seq<u32> {
    Seq::new(NAMED_COLOR_COUNT as nat, |i: int| named_distance(rgb, i))
}

/// The position of the first minimum among the first `n` entries of `d`.
pub open spec fn first_min_upto(d: Seq<u32>, n: nat) -> nat
    decreases n,
{
    if n <= 1 {
        0
    } else {
        let best = first_min_upto(d, (n - 1) as nat);
        if d[n - 1] < d[best as int] {
            (n - 1) as nat
        } else {
            best
        }
    }
}

/// The position of the nearest colour to `rgb`, the earliest on a tie.
pub open spec fn nearest_index(rgb: Seq<u8>) -> nat {
    first_min_upto(named_distances(rgb), NAMED_COLOR_COUNT as nat)
}

/// The named colour nearest to `rgb`.
pub open spec fn nearest_named(rgb: Seq<u8>) -> NamedTextColor {
    named_at(nearest_index(rgb) as int)
}

/// The first minimum is no larger than any entry and smaller than every
/// entry before it.
pub proof fn lemma_first_min_is_minimal(d: Seq<u32>, n: nat)
    requires
        1 <= n <= d.len(),
    ensures
        first_min_upto(d, n) < n,
        forall|j: int| 0 <= j < n ==> d[first_min_upto(d, n) as int] <= #[trigger] d[j],
        forall|j: int| 0 <= j < first_min_upto(d, n) ==> #[trigger] d[j] > d[first_min_upto(d, n) as int],
    decreases n,
{
    if n > 1 {
        lemma_first_min_is_minimal(d, (n - 1) as nat);
    }
}

/// The position of the first minimum of `d`.
pub fn first_minimum(d: &Vec<u32>) -> (r: usize)
    requires
        d@.len() >= 1,
    ensures
        r as nat == first_min_upto(d@, d@.len()),
{
    let mut best: usize = 0;
    let mut i: usize = 1;
    while i < d.len()
        invariant
            1 <= i <= d@.len(),
            best as nat == first_min_upto(d@, i as nat),
            best < i,
        decreases d.len() - i,
    {
        if d[i] < d[best] {
            best = i;
        }
        i = i + 1;
    }
    best
}

/// The named colour nearest to `rgb` by squared CIE-Lab distance, the
/// earliest in the enumeration on a tie.
pub fn nearest_named_color(rgb: [u8; 3]) -> (r: NamedTextColor)
    ensures
        r == nearest_named(rgb@),
{
    let mut distances: Vec<u32> = Vec::new();
    let mut i: usize = 0;
    while i < NAMED_COLOR_COUNT
        invariant
            i <= NAMED_COLOR_COUNT,
            distances@ == named_distances(rgb@).subrange(0, i as int),
        decreases NAMED_COLOR_COUNT - i,
    {
        let d = lab_squared_distance_bits(NamedTextColor::at(i).vanilla(), rgb);
        distances.push(d);
        assert(distances@ =~= named_distances(rgb@).subrange(0, i + 1 as int));
        i = i + 1;
    }
    assert(distances@ =~= named_distances(rgb@));
    let best = first_minimum(&distances);
    proof {
        lemma_first_min_is_minimal(distances@, distances@.len());
    }
    NamedTextColor::at(best)
}

/// The value of a hex digit character, if it is one.
pub open spec fn hex_digit_value(c: char) -> Option<nat> {
    if '0' <= c && c <= '9' {
        Some((c as nat - '0' as nat) as nat)
    } else if 'a' <= c && c <= 'f' {
        Some((c as nat - 'a' as nat + 10) as nat)
    } else if 'A' <= c && c <= 'F' {
        Some((c as nat - 'A' as nat + 10) as nat)
    } else {
        None
    }
}

fn hex_digit(c: char) -> (r: Option<u8>)
    ensures
        match r {
            Some(v) => hex_digit_value(c) == Some(v as nat),
            None => hex_digit_value(c) is None,
        },
{
    if '0' <= c && c <= '9' {
        Some((c as u32 - '0' as u32) as u8)
    } else if 'a' <= c && c <= 'f' {
        Some((c as u32 - 'a' as u32 + 10) as u8)
    } else if 'A' <= c && c <= 'F' {
        Some((c as u32 - 'A' as u32 + 10) as u8)
    } else {
        None
    }
}

/// The number of `#` characters that `s` starts with.
pub open spec fn leading_hashes(s: Seq<char>) -> nat
    decreases s.len(),
{
    if s.len() > 0 && s[0] == '#' {
        1 + leading_hashes(s.subrange(1, s.len() as int))
    } else {
        0
    }
}

/// The byte given by the two hex digits of `s` at `i`.
pub open spec fn hex_pair(s: Seq<char>, i: int) -> Option<u8> {
    match (hex_digit_value(s[i]), hex_digit_value(s[i + 1])) {
        (Some(h), Some(l)) => Some((h * 16 + l) as u8),
        _ => None,
    }
}

/// The RGB value of a colour written `#rrggbb`: leading `#` characters are
/// skipped and the next six characters must be hex digits.
pub open spec fn parse_hex_spec(s: Seq<char>) -> Option<Seq<u8>> {
    let t = s.subrange(leading_hashes(s) as int, s.len() as int);
    if t.len() < 6 {
        None
    } else {
        match (hex_pair(t, 0), hex_pair(t, 2), hex_pair(t, 4)) {
            (Some(r), Some(g), Some(b)) => Some(seq![r, g, b]),
            _ => None,
        }
    }
}

proof fn lemma_leading_hashes(s: Seq<char>, i: nat)
    requires
        i <= s.len(),
        forall|k: int| 0 <= k < i ==> s[k] == '#',
    ensures
        leading_hashes(s) == i + leading_hashes(s.subrange(i as int, s.len() as int)),
    decreases i,
{
    if i > 0 {
        let t = s.subrange(1, s.len() as int);
        assert forall|k: int| 0 <= k < i - 1 implies t[k] == '#' by {
            assert(t[k] == s[k + 1]);
        }
        lemma_leading_hashes(t, (i - 1) as nat);
        assert(t.subrange(i - 1, t.len() as int) =~= s.subrange(i as int, s.len() as int));
    } else {
        assert(s.subrange(0, s.len() as int) =~= s);
    }
}

/// Parses a `#rrggbb` colour to its RGB value.
pub fn parse_hex(hex: &str) -> (r: Result<[u8; 3], ProtocolError>)
    ensures
        match r {
            Ok(rgb) => parse_hex_spec(hex@) == Some(rgb@),
            Err(e) => parse_hex_spec(hex@) is None && e == ProtocolError::InvalidHexColor,
        },
{
    let chars: Vec<char> = collect_chars(hex);
    let mut i: usize = 0;
    while i < chars.len() && chars[i] == '#'
        invariant
            chars@ == hex@,
            i <= chars@.len(),
            forall|k: int| 0 <= k < i ==> chars@[k] == '#',
        decreases chars.len() - i,
    {
        i = i + 1;
    }
    proof {
        lemma_leading_hashes(hex@, i as nat);
        let t = hex@.subrange(i as int, hex@.len() as int);
        if t.len() > 0 {
            assert(t[0] == hex@[i as int]);
        }
        assert(leading_hashes(t) == 0);
    }
    if chars.len() - i < 6 {
        return Err(ProtocolError::InvalidHexColor);
    }
    let ghost t = hex@.subrange(i as int, hex@.len() as int);
    assert(t[0] == chars@[i as int] && t[1] == chars@[i + 1]);
    assert(t[2] == chars@[i + 2] && t[3] == chars@[i + 3]);
    assert(t[4] == chars@[i + 4] && t[5] == chars@[i + 5]);
    let r = match hex_byte(&chars, i) {
        Some(v) => v,
        None => return Err(ProtocolError::InvalidHexColor),
    };
    let g = match hex_byte(&chars, i + 2) {
        Some(v) => v,
        None => return Err(ProtocolError::InvalidHexColor),
    };
    let b = match hex_byte(&chars, i + 4) {
        Some(v) => v,
        None => return Err(ProtocolError::InvalidHexColor),
    };
    let rgb: [u8; 3] = [r, g, b];
    assert(rgb@ =~= seq![r, g, b]);
    Ok(rgb)
}

/// The byte given by the two hex digits at `j` and `j + 1`.
fn hex_byte(chars: &Vec<char>, j: usize) -> (r: Option<u8>)
    requires
        j + 1 < chars@.len(),
    ensures
        r == hex_pair(chars@, j as int),
{
    let n = chars.len();
    assert(j + 1 < n);
    let h = hex_digit(chars[j]);
    let l = hex_digit(chars[j + 1]);
    match (h, l) {
        (Some(h), Some(l)) => Some(h * 16 + l),
        _ => None,
    }
}

/// Relies on `str::chars`, collected: the characters of `s`.
#[verifier::external_body]
pub(crate) fn collect_chars(s: &str) -> (r: Vec<char>)
    ensures
        r@ == s@,
{
    s.chars().collect()
}

/// A text colour: one of the named colours, or `#rrggbb`.
pub enum TextColor {
    Named(NamedTextColor),
    Hex(String),
}

/// A colour as a mathematical value.
pub enum ColorView {
    Named(NamedTextColor),
    Hex(Seq<char>),
}

impl View for TextColor {
    type V = ColorView;

    open spec fn view(&self) -> ColorView {
        match self {
            TextColor::Named(n) => ColorView::Named(*n),
            TextColor::Hex(h) => ColorView::Hex(h@),
        }
    }
}

/// The legacy code character of a colour: named colours map to their own,
/// hex colours to the nearest named colour, and a malformed hex colour to
/// the reset code.
pub open spec fn color_legacy_char(c: ColorView) -> char {
    match c {
        ColorView::Named(n) => legacy_char_of(n),
        ColorView::Hex(h) => match parse_hex_spec(h) {
            Some(rgb) => legacy_char_of(nearest_named(rgb)),
            None => legacy_char_of(NamedTextColor::Reset),
        },
    }
}

/// A well-formed hex colour renders with the code of a named colour that
/// is at least as near to it as every named colour and strictly nearer than
/// every one before it in the enumeration (black first, reset last).
pub proof fn lemma_hex_color_nearest(h: Seq<char>)
    requires
        parse_hex_spec(h) is Some,
    ensures
        ({
            let rgb = parse_hex_spec(h)->Some_0;
            let i = nearest_index(rgb) as int;
            &&& 0 <= i < NAMED_COLOR_COUNT
            &&& color_legacy_char(ColorView::Hex(h)) == legacy_char_of(named_at(i))
            &&& forall|j: int|
                0 <= j < NAMED_COLOR_COUNT ==> named_distance(rgb, i) <= #[trigger] named_distance(
                    rgb,
                    j,
                )
            &&& forall|j: int| 0 <= j < i ==> #[trigger] named_distance(rgb, j) > named_distance(rgb, i)
        }),
{
    let rgb = parse_hex_spec(h)->Some_0;
    let d = named_distances(rgb);
    lemma_first_min_is_minimal(d, NAMED_COLOR_COUNT as nat);
    assert forall|j: int| 0 <= j < NAMED_COLOR_COUNT implies #[trigger] named_distance(rgb, j)
        == d[j] by {}
}

impl TextColor {
    /// The legacy code character of this colour; a hex colour is resolved
    /// to the nearest named colour, and fails when it is not `#rrggbb`.
    pub fn legacy_char(&self) -> (r: Result<char, ProtocolError>)
        ensures
            match r {
                Ok(c) => c == color_legacy_char(self@) && (self@ matches ColorView::Hex(h)
                    ==> parse_hex_spec(h) is Some),
                Err(e) => self@ matches ColorView::Hex(h) && parse_hex_spec(h) is None && e
                    == ProtocolError::InvalidHexColor,
            },
    {
        match self {
            TextColor::Named(n) => Ok(n.legacy_char()),
            TextColor::Hex(h) => {
                let rgb = parse_hex(h.as_str())?;
                Ok(nearest_named_color(rgb).legacy_char())
            },
        }
    }
}

/// A hex colour given by its `#rrggbb` string.
pub struct HexTextColor(pub String);

impl HexTextColor {
    pub fn into_color(self) -> (r: TextColor)
        ensures
            r@ == ColorView::Hex(self.0@),
    {
        TextColor::Hex(self.0)
    }
}

/// The fonts a text may ask for.
#[derive(Debug, Clone, Copy, PartialEq, Eq, Structural)]
pub enum TextFont {
    Default,
    Uniform,
    EnchantingTable,
    Illager,
}

/// Which JSON rendering of a text is wanted.
#[derive(Debug, Clone, Copy, PartialEq, Eq, Structural)]
pub enum JsonStringType {
    Short,
    Pretty,
}

/// Optional formatting attributes of a text node.
pub struct TextFormatting {
    pub color: Option<TextColor>,
    pub font: Option<TextFont>,
    pub bolded: Option<bool>,
    pub italicized: Option<bool>,
    pub underlined: Option<bool>,
    pub struck_through: Option<bool>,
    pub obfuscated: Option<bool>,
}

/// Formatting as a mathematical value.
pub struct FormattingView {
    pub color: Option<ColorView>,
    pub font: Option<TextFont>,
    pub bolded: Option<bool>,
    pub italicized: Option<bool>,
    pub underlined: Option<bool>,
    pub struck_through: Option<bool>,
    pub obfuscated: Option<bool>,
}

impl View for TextFormatting {
    type V = FormattingView;

    open spec fn view(&self) -> FormattingView {
        FormattingView {
            color: match self.color {
                Some(c) => Some(c@),
                None => None,
            },
            font: self.font,
            bolded: self.bolded,
            italicized: self.italicized,
            underlined: self.underlined,
            struck_through: self.struck_through,
            obfuscated: self.obfuscated,
        }
    }
}

/// No attribute set.
pub open spec fn no_formatting() -> FormattingView {
    FormattingView {
        color: None,
        font: None,
        bolded: None,
        italicized: None,
        underlined: None,
        struck_through: None,
        obfuscated: None,
    }
}

/// The escape that starts a legacy formatting code.
pub const ESCAPE_CHAR: char = '\u{00a7}';

/// `§` and `code`, when `flag` is set to true.
pub open spec fn flag_code(flag: Option<bool>, code: char) -> Seq<char> {
    if flag == Some(true) {
        seq![ESCAPE_CHAR, code]
    } else {
        Seq::empty()
    }
}

/// The legacy codes of a formatting: the colour, then bold, italic,
/// underline, strikethrough and obfuscated, each only when set to true.
pub open spec fn legacy_codes_of(f: FormattingView) -> Seq<char> {
    (match f.color {
        Some(c) => seq![ESCAPE_CHAR, color_legacy_char(c)],
        None => Seq::empty(),
    }) + flag_code(f.bolded, 'l') + flag_code(f.italicized, 'o') + flag_code(f.underlined, 'n')
        + flag_code(f.struck_through, 'm') + flag_code(f.obfuscated, 'k')
}

fn push_flag(s: &mut String, flag: Option<bool>, code: char)
    ensures
        final(s)@ == old(s)@ + flag_code(flag, code),
{
    if let Some(true) = flag {
        push_char(s, ESCAPE_CHAR);
        push_char(s, code);
        assert(old(s)@.push(ESCAPE_CHAR).push(code) == old(s)@ + seq![ESCAPE_CHAR, code]);
    } else {
        assert(old(s)@ + Seq::<char>::empty() == old(s)@);
    }
}

impl TextFormatting {
    /// No attribute set.
    pub fn new() -> (r: Self)
        ensures
            r@ == no_formatting(),
    {
        TextFormatting {
            color: None,
            font: None,
            bolded: None,
            italicized: None,
            underlined: None,
            struck_through: None,
            obfuscated: None,
        }
    }

    /// The `§` codes that turn this formatting on in a legacy string.
    pub fn legacy_codes(&self) -> (r: String)
        ensures
            r@ == legacy_codes_of(self@),
    {
        let mut codes = String::new();
        if let Some(color) = &self.color {
            let legacy = match color.legacy_char() {
                Ok(c) => c,
                Err(_) => NamedTextColor::Reset.legacy_char(),
            };
            push_char(&mut codes, ESCAPE_CHAR);
            push_char(&mut codes, legacy);
        }
        let ghost after_color = codes@;
        push_flag(&mut codes, self.bolded, 'l');
        push_flag(&mut codes, self.italicized, 'o');
        push_flag(&mut codes, self.underlined, 'n');
        push_flag(&mut codes, self.struck_through, 'm');
        push_flag(&mut codes, self.obfuscated, 'k');
        proof {
            if self.color is None {
                assert(after_color =~= Seq::<char>::empty());
            } else {
                assert(after_color =~= seq![ESCAPE_CHAR, color_legacy_char(self@.color->Some_0)]);
            }
        }
        codes
    }
}

/// Rich text: a bare string, boolean or number, a sequence of texts, or a
/// full node with content, children and formatting.
pub enum Text {
    String(String),
    Bool(bool),
    Number(i64),
    Sequential(Vec<Text>),
    Full(FullText),
}

/// A full text node.
pub struct FullText {
    pub content: TextContent,
    pub children: Vec<Text>,
    pub formatting: TextFormatting,
}

/// What a full text node shows before its children.
pub enum TextContent {
    Plain { text: String },
    Translated { key: String, args: Vec<Text> },
    KeyBinding { key: String },
}

/// Rich text as a mathematical value.
pub enum TextView {
    Str(Seq<char>),
    Bool(bool),
    Number(i64),
    Sequential(Seq<TextView>),
    Full(FullTextView),
}

pub struct FullTextView {
    pub content: ContentView,
    pub children: Seq<TextView>,
    pub formatting: FormattingView,
}

pub enum ContentView {
    Plain(Seq<char>),
    Translated(Seq<char>, Seq<TextView>),
    KeyBinding(Seq<char>),
}

pub open spec fn text_view(t: &Text) -> TextView
    decreases t,
{
    match t {
        Text::String(s) => TextView::Str(s@),
        Text::Bool(b) => TextView::Bool(*b),
        Text::Number(n) => TextView::Number(*n),
        Text::Sequential(v) => TextView::Sequential(texts_view(v@)),
        Text::Full(f) => TextView::Full(
            FullTextView {
                content: content_view(&f.content),
                children: texts_view(f.children@),
                formatting: f.formatting@,
            },
        ),
    }
}

pub open spec fn content_view(c: &TextContent) -> ContentView
    decreases c,
{
    match c {
        TextContent::Plain { text } => ContentView::Plain(text@),
        TextContent::Translated { key, args } => ContentView::Translated(key@, texts_view(args@)),
        TextContent::KeyBinding { key } => ContentView::KeyBinding(key@),
    }
}

pub open spec fn texts_view(s: Seq<Text>) -> Seq<TextView>
    decreases s,
{
    if s.len() == 0 {
        Seq::empty()
    } else {
        texts_view(s.subrange(0, s.len() - 1)).push(text_view(&s[s.len() - 1]))
    }
}

impl View for Text {
    type V = TextView;

    open spec fn view(&self) -> TextView {
        text_view(self)
    }
}

/// The characters a boolean renders to.
pub open spec fn bool_chars(b: bool) -> Seq<char> {
    if b {
        seq!['t', 'r', 'u', 'e']
    } else {
        seq!['f', 'a', 'l', 's', 'e']
    }
}

/// What a content shows: its text, or its key.
pub open spec fn content_chars(c: ContentView) -> Seq<char> {
    match c {
        ContentView::Plain(t) => t,
        ContentView::Translated(k, _) => k,
        ContentView::KeyBinding(k) => k,
    }
}

/// The plain rendering: the content of every node, in order, without
/// formatting.
pub open spec fn plain_of(t: TextView) -> Seq<char>
    decreases t,
{
    match t {
        TextView::Str(s) => s,
        TextView::Bool(b) => bool_chars(b),
        TextView::Number(n) => decimal_of(n as int),
        TextView::Sequential(v) => plain_of_all(v),
        TextView::Full(f) => content_chars(f.content) + plain_of_all(f.children),
    }
}

pub open spec fn plain_of_all(s: Seq<TextView>) -> Seq<char>
    decreases s,
{
    if s.len() == 0 {
        Seq::empty()
    } else {
        plain_of_all(s.subrange(0, s.len() - 1)) + plain_of(s[s.len() - 1])
    }
}

/// The legacy rendering: like the plain one, with the `§` codes of each full
/// node's formatting before its content.
pub open spec fn legacy_of(t: TextView) -> Seq<char>
    decreases t,
{
    match t {
        TextView::Sequential(v) => legacy_of_all(v),
        TextView::Full(f) => legacy_codes_of(f.formatting) + content_chars(f.content)
            + legacy_of_all(f.children),
        other => plain_of(other),
    }
}

pub open spec fn legacy_of_all(s: Seq<TextView>) -> Seq<char>
    decreases s,
{
    if s.len() == 0 {
        Seq::empty()
    } else {
        legacy_of_all(s.subrange(0, s.len() - 1)) + legacy_of(s[s.len() - 1])
    }
}

/// A text lifted to a full node, as setting an attribute on it does: bare
/// values become plain content, a sequence becomes the children of an empty
/// node.
pub open spec fn as_full(t: TextView) -> FullTextView {
    match t {
        TextView::Full(f) => f,
        TextView::Sequential(v) => FullTextView {
            content: ContentView::Plain(Seq::empty()),
            children: v,
            formatting: no_formatting(),
        },
        other => FullTextView {
            content: ContentView::Plain(plain_of(other)),
            children: Seq::empty(),
            formatting: no_formatting(),
        },
    }
}

/// Every text view is the view of a text.
proof fn lemma_texts_view_len(s: Seq<Text>)
    ensures
        texts_view(s).len() == s.len(),
        forall|i: int| 0 <= i < s.len() ==> #[trigger] texts_view(s)[i] == text_view(&s[i]),
    decreases s.len(),
{
    if s.len() > 0 {
        let p = s.subrange(0, s.len() - 1);
        lemma_texts_view_len(p);
        assert forall|i: int| 0 <= i < s.len() implies #[trigger] texts_view(s)[i] == text_view(
            &s[i],
        ) by {
            if i < s.len() - 1 {
                assert(p[i] == s[i]);
            }
        }
    }
}

proof fn lemma_texts_view_push(s: Seq<Text>, t: Text)
    ensures
        texts_view(s.push(t)) == texts_view(s).push(text_view(&t)),
{
    assert(s.push(t).subrange(0, s.len() as int) == s);
}

proof fn lemma_plain_of_all_push(s: Seq<TextView>, t: TextView)
    ensures
        plain_of_all(s.push(t)) == plain_of_all(s) + plain_of(t),
        legacy_of_all(s.push(t)) == legacy_of_all(s) + legacy_of(t),
{
    assert(s.push(t).subrange(0, s.len() as int) == s);
}

impl Text {
    /// The plain rendering: contents concatenated, formatting dropped.
    pub fn to_plain_string(&self) -> (r: String)
        ensures
            r@ == plain_of(self@),
        decreases self,
    {
        match self {
            Text::String(s) => s.clone(),
            Text::Bool(b) => {
                let mut out = String::new();
                if *b {
                    push_str(&mut out, "true");
                    proof {
                        reveal_strlit("true");
                    }
                } else {
                    push_str(&mut out, "false");
                    proof {
                        reveal_strlit("false");
                    }
                }
                out
            },
            Text::Number(n) => {
                let mut out = String::new();
                push_decimal(&mut out, *n);
                out
            },
            Text::Sequential(v) => {
                let mut out = String::new();
                append_plain(&mut out, v);
                out
            },
            Text::Full(f) => {
                let mut out = f.content.to_plain_string();
                append_plain(&mut out, &f.children);
                out
            },
        }
    }

    /// The legacy rendering: `§` codes before each full node's content.
    pub fn to_legacy_string(&self) -> (r: String)
        ensures
            r@ == legacy_of(self@),
        decreases self,
    {
        match self {
            Text::Sequential(v) => {
                let mut out = String::new();
                append_legacy(&mut out, v);
                out
            },
            Text::Full(f) => {
                let mut out = f.formatting.legacy_codes();
                let c = f.content.to_plain_string();
                push_str(&mut out, c.as_str());
                append_legacy(&mut out, &f.children);
                out
            },
            _ => self.to_plain_string(),
        }
    }
}

fn append_plain(out: &mut String, v: &Vec<Text>)
    ensures
        final(out)@ == old(out)@ + plain_of_all(texts_view(v@)),
    decreases v,
{
    let mut i: usize = 0;
    proof {
        lemma_texts_view_len(v@);
    }
    while i < v.len()
        invariant
            i <= v@.len(),
            texts_view(v@).len() == v@.len(),
            forall|k: int| 0 <= k < v@.len() ==> #[trigger] texts_view(v@)[k] == text_view(&v@[k]),
            out@ == old(out)@ + plain_of_all(texts_view(v@).subrange(0, i as int)),
        decreases v.len() - i,
    {
        let piece = v[i].to_plain_string();
        push_str(out, piece.as_str());
        proof {
            let s = texts_view(v@);
            assert(s.subrange(0, i + 1 as int) == s.subrange(0, i as int).push(s[i as int]));
            lemma_plain_of_all_push(s.subrange(0, i as int), s[i as int]);
        }
        i = i + 1;
    }
    assert(texts_view(v@).subrange(0, v@.len() as int) == texts_view(v@));
}

fn append_legacy(out: &mut String, v: &Vec<Text>)
    ensures
        final(out)@ == old(out)@ + legacy_of_all(texts_view(v@)),
    decreases v,
{
    let mut i: usize = 0;
    proof {
        lemma_texts_view_len(v@);
    }
    while i < v.len()
        invariant
            i <= v@.len(),
            texts_view(v@).len() == v@.len(),
            forall|k: int| 0 <= k < v@.len() ==> #[trigger] texts_view(v@)[k] == text_view(&v@[k]),
            out@ == old(out)@ + legacy_of_all(texts_view(v@).subrange(0, i as int)),
        decreases v.len() - i,
    {
        let piece = v[i].to_legacy_string();
        push_str(out, piece.as_str());
        proof {
            let s = texts_view(v@);
            assert(s.subrange(0, i + 1 as int) == s.subrange(0, i as int).push(s[i as int]));
            lemma_plain_of_all_push(s.subrange(0, i as int), s[i as int]);
        }
        i = i + 1;
    }
    assert(texts_view(v@).subrange(0, v@.len() as int) == texts_view(v@));
}

impl TextContent {
    /// What this content shows: its text, or its key.
    pub fn to_plain_string(&self) -> (r: String)
        ensures
            r@ == content_chars(content_view(self)),
    {
        match self {
            TextContent::Plain { text } => text.clone(),
            TextContent::Translated { key, .. } => key.clone(),
            TextContent::KeyBinding { key } => key.clone(),
        }
    }
}

/// `f` with its formatting replaced by `fm`.
pub open spec fn reformat(f: FullTextView, fm: FormattingView) -> TextView {
    TextView::Full(FullTextView { content: f.content, children: f.children, formatting: fm })
}

impl Text {
    /// A bare string.
    pub fn from_string(s: String) -> (r: Text)
        ensures
            r@ == TextView::Str(s@),
    {
        Text::String(s)
    }

    /// This text as a full node: bare values become plain content, a
    /// sequence becomes the children of an empty node.
    fn into_full(self) -> (r: FullText)
        ensures
            text_view(&Text::Full(r)) == TextView::Full(as_full(self@)),
    {
        match self {
            Text::Full(full) => full,
            Text::Sequential(children) => FullText {
                content: TextContent::Plain { text: String::new() },
                children,
                formatting: TextFormatting::new(),
            },
            other => {
                let text = other.to_plain_string();
                let r = FullText {
                    content: TextContent::Plain { text },
                    children: Vec::new(),
                    formatting: TextFormatting::new(),
                };
                assert(texts_view(r.children@) =~= Seq::<TextView>::empty());
                r
            },
        }
    }

    /// Appends `child` to the children of this text, lifted to a full node.
    pub fn push_child(self, child: Text) -> (r: Text)
        ensures
            r@ == TextView::Full(
                FullTextView {
                    content: as_full(self@).content,
                    children: as_full(self@).children.push(child@),
                    formatting: as_full(self@).formatting,
                },
            ),
    {
        let mut full = self.into_full();
        let ghost before = full.children@;
        full.children.push(child);
        proof {
            lemma_texts_view_push(before, child);
        }
        Text::Full(full)
    }

    /// Appends `other` after this text: a sequence grows in place, any other
    /// text becomes the sequence of an empty string, itself and `other`.
    pub fn push_sequential(self, other: Text) -> (r: Text)
        ensures
            r@ == match self@ {
                TextView::Sequential(v) => TextView::Sequential(v.push(other@)),
                _ => TextView::Sequential(seq![TextView::Str(Seq::empty()), self@, other@]),
            },
    {
        match self {
            Text::Sequential(v) => {
                let mut v = v;
                let ghost before = v@;
                v.push(other);
                proof {
                    lemma_texts_view_push(before, other);
                }
                Text::Sequential(v)
            },
            this => {
                let ghost this_view = this@;
                let mut v: Vec<Text> = Vec::new();
                v.push(Text::String(String::new()));
                let ghost v1 = v@;
                v.push(this);
                let ghost v2 = v@;
                v.push(other);
                proof {
                    assert(v1.subrange(0, 0) == Seq::<Text>::empty());
                    lemma_texts_view_push(Seq::<Text>::empty(), v1[0]);
                    assert(Seq::<Text>::empty().push(v1[0]) == v1);
                    lemma_texts_view_push(v1, v2[1]);
                    assert(v1.push(v2[1]) == v2);
                    lemma_texts_view_push(v2, other);
                    assert(texts_view(v@) =~= seq![TextView::Str(Seq::empty()), this_view, other@]);
                }
                Text::Sequential(v)
            },
        }
    }

    /// Sets the colour, lifting this text to a full node.
    pub fn color(self, color: TextColor) -> (r: Text)
        ensures
            r@ == reformat(
                as_full(self@),
                FormattingView { color: Some(color@), ..as_full(self@).formatting },
            ),
    {
        let mut full = self.into_full();
        full.formatting.color = Some(color);
        Text::Full(full)
    }

    /// Sets the font, lifting this text to a full node.
    pub fn font(self, font: TextFont) -> (r: Text)
        ensures
            r@ == reformat(
                as_full(self@),
                FormattingView { font: Some(font), ..as_full(self@).formatting },
            ),
    {
        let mut full = self.into_full();
        full.formatting.font = Some(font);
        Text::Full(full)
    }

    /// Sets boldness, lifting this text to a full node.
    pub fn bolded(self, bolded: bool) -> (r: Text)
        ensures
            r@ == reformat(
                as_full(self@),
                FormattingView { bolded: Some(bolded), ..as_full(self@).formatting },
            ),
    {
        let mut full = self.into_full();
        full.formatting.bolded = Some(bolded);
        Text::Full(full)
    }

    /// Sets italics, lifting this text to a full node.
    pub fn italicized(self, italicized: bool) -> (r: Text)
        ensures
            r@ == reformat(
                as_full(self@),
                FormattingView { italicized: Some(italicized), ..as_full(self@).formatting },
            ),
    {
        let mut full = self.into_full();
        full.formatting.italicized = Some(italicized);
        Text::Full(full)
    }

    /// Sets underlining, lifting this text to a full node.
    pub fn underlined(self, underlined: bool) -> (r: Text)
        ensures
            r@ == reformat(
                as_full(self@),
                FormattingView { underlined: Some(underlined), ..as_full(self@).formatting },
            ),
    {
        let mut full = self.into_full();
        full.formatting.underlined = Some(underlined);
        Text::Full(full)
    }

    /// Sets strikethrough, lifting this text to a full node.
    pub fn struck_through(self, struck_through: bool) -> (r: Text)
        ensures
            r@ == reformat(
                as_full(self@),
                FormattingView { struck_through: Some(struck_through), ..as_full(self@).formatting },
            ),
    {
        let mut full = self.into_full();
        full.formatting.struck_through = Some(struck_through);
        Text::Full(full)
    }

    /// Sets obfuscation, lifting this text to a full node.
    pub fn obfuscated(self, obfuscated: bool) -> (r: Text)
        ensures
            r@ == reformat(
                as_full(self@),
                FormattingView { obfuscated: Some(obfuscated), ..as_full(self@).formatting },
            ),
    {
        let mut full = self.into_full();
        full.formatting.obfuscated = Some(obfuscated);
        Text::Full(full)
    }
}

} // verus!
