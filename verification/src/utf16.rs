//! UTF-16, as Windows hands out and takes names.
use vstd::prelude::*;
use vstd::string::*;

verus! {

/// `char::from_u32` gives the character with this code where there is one: up
/// to `10FFFF`, except for the surrogates `D800` to `DFFF`.
pub assume_specification[ char::from_u32 ](code: u32) -> (r: Option<char>)
    ensures
        match r {
            Some(c) => c as u32 == code,
            None => 0xD800 <= code <= 0xDFFF || code > 0x10FFFF,
        },
;

/// The first unit of a surrogate pair.
pub open spec fn high(unit: u16) -> bool {
    0xD800 <= unit <= 0xDBFF
}

/// The second unit of a surrogate pair.
pub open spec fn low(unit: u16) -> bool {
    0xDC00 <= unit <= 0xDFFF
}

/// The character of a surrogate pair.
pub open spec fn pair_char(first: u16, second: u16) -> char {
    (0x10000 + (first - 0xD800) * 0x400 + (second - 0xDC00)) as char
}

/// The text of UTF-16 units. A surrogate without its partner becomes the
/// replacement character.
pub open spec fn decoded(units: Seq<u16>) -> Seq<char>
    decreases units.len(),
{
    if units.len() == 0 {
        Seq::empty()
    } else if high(units[0]) && units.len() > 1 && low(units[1]) {
        seq![pair_char(units[0], units[1])] + decoded(units.skip(2))
    } else if high(units[0]) || low(units[0]) {
        seq!['\u{fffd}'] + decoded(units.skip(1))
    } else {
        seq![units[0] as char] + decoded(units.skip(1))
    }
}

/// The units of one character.
pub open spec fn encoded_char(c: char) -> Seq<u16> {
    if (c as u32) < 0x10000 {
        seq![(c as u32) as u16]
    } else {
        seq![
            (0xD800 + (c as u32 - 0x10000) / 0x400) as u16,
            (0xDC00 + (c as u32 - 0x10000) % 0x400) as u16,
        ]
    }
}

/// The UTF-16 units of a text.
pub open spec fn encoded(s: Seq<char>) -> Seq<u16>
    decreases s.len(),
{
    if s.len() == 0 {
        Seq::empty()
    } else {
        encoded_char(s[0]) + encoded(s.skip(1))
    }
}

/// Decodes UTF-16, replacing what is not valid.
pub fn from_utf16_lossy(units: &[u16]) -> (r: String)
    ensures
        r@ == decoded(units@),
{
    let mut r = String::new();
    let mut i: usize = 0;
    assert(units@.skip(0) =~= units@);
    assert(r@ + decoded(units@) =~= decoded(units@));
    while i < units.len()
        invariant
            0 <= i <= units@.len(),
            r@ + decoded(units@.skip(i as int)) == decoded(units@),
        decreases units@.len() - i,
    {
        let unit: u16 = units[i];
        let ghost rest = units@.skip(i as int);
        let ghost before = r@;
        let paired = units.len() - i > 1 && 0xD800 <= unit && unit <= 0xDBFF && 0xDC00 <= units[i
            + 1] && units[i + 1] <= 0xDFFF;
        let code: u32 = if paired {
            0x10000 + (unit as u32 - 0xD800) * 0x400 + (units[i + 1] as u32 - 0xDC00)
        } else if 0xD800 <= unit && unit <= 0xDFFF {
            0xFFFD
        } else {
            unit as u32
        };
        let c: char = match char::from_u32(code) {
            Some(c) => c,
            None => '\u{fffd}',
        };
        proof {
            vstd::utf8::char_u32_cast(c, code);
        }
        r.push(c);
        if paired {
            assert(c == pair_char(rest[0], rest[1]));
            assert(rest.skip(2) =~= units@.skip(i + 2));
            assert(r@ + decoded(rest.skip(2)) =~= before + decoded(rest));
            i += 2;
        } else {
            assert(rest.skip(1) =~= units@.skip(i + 1));
            assert(r@ + decoded(rest.skip(1)) =~= before + decoded(rest));
            i += 1;
        }
    }
    assert(r@ + decoded(units@.skip(i as int)) =~= r@);
    r
}

/// Encodes a text as UTF-16.
pub fn to_utf16(s: &str) -> (r: Vec<u16>)
    ensures
        r@ == encoded(s@),
{
    let chars = crate::text::to_chars(s);
    let mut r: Vec<u16> = Vec::new();
    let mut i: usize = 0;
    assert(s@.skip(0) =~= s@);
    assert(r@ + encoded(s@) =~= encoded(s@));
    while i < chars.len()
        invariant
            0 <= i <= chars@.len(),
            chars@ == s@,
            r@ + encoded(s@.skip(i as int)) == encoded(s@),
        decreases chars@.len() - i,
    {
        let code: u32 = chars[i] as u32;
        let ghost before = r@;
        if code < 0x10000 {
            r.push(code as u16);
        } else {
            r.push((0xD800 + (code - 0x10000) / 0x400) as u16);
            r.push((0xDC00 + (code - 0x10000) % 0x400) as u16);
        }
        assert(r@ =~= before + encoded_char(chars@[i as int]));
        assert(s@.skip(i as int).skip(1) =~= s@.skip(i + 1));
        assert(r@ + encoded(s@.skip(i + 1)) =~= before + encoded(s@.skip(i as int)));
        i += 1;
    }
    assert(r@ + encoded(s@.skip(i as int)) =~= r@);
    r
}

/// Decoding what was encoded gives the text back.
pub proof fn encoding_reads_back(s: Seq<char>)
    ensures
        decoded(encoded(s)) == s,
    decreases s.len(),
{
    if s.len() > 0 {
        let c = s[0];
        let rest = s.skip(1);
        let units = encoded(s);
        encoding_reads_back(rest);
        let k = encoded_char(c).len() as int;
        assert(units.skip(k) =~= encoded(rest));
        vstd::utf8::char_is_scalar(c);
        if (c as u32) < 0x10000 {
            assert(units[0] == (c as u32) as u16);
            vstd::utf8::char_u32_cast(c, units[0] as u32);
            assert(units[0] as char == c);
        } else {
            assert(units[0] == encoded_char(c)[0]);
            assert(units[1] == encoded_char(c)[1]);
            let code = c as u32;
            assert(high(units[0]) && low(units[1]));
            assert(0x10000 + (units[0] - 0xD800) * 0x400 + (units[1] - 0xDC00) == code);
            vstd::utf8::char_u32_cast(c, code);
            assert(pair_char(units[0], units[1]) == c);
        }
        assert(decoded(units) =~= seq![c] + decoded(encoded(rest)));
        assert(seq![c] + rest =~= s);
    }
}

/// A character below `10000` is one unit with its code. Any other is two: the
/// upper ten bits of what its code is above `10000` behind `D800`, and the lower
/// ten behind `DC00`.
pub proof fn characters_are_one_unit_or_two(c: char)
    ensures
        (c as u32) < 0x10000 ==> encoded_char(c).len() == 1 && encoded_char(c)[0] == c as u32,
        c as u32 >= 0x10000 ==> {
            let units = encoded_char(c);
            &&& units.len() == 2
            &&& 0xD800 <= units[0] <= 0xDBFF
            &&& 0xDC00 <= units[1] <= 0xDFFF
            &&& (units[0] - 0xD800) * 1024 + (units[1] - 0xDC00) + 0x10000 == c as u32
        },
{
    vstd::utf8::char_is_scalar(c);
}

/// Units are read from the front. One that is no surrogate is the character with
/// its code, and a surrogate without its partner is the replacement character.
pub proof fn units_are_read_one_by_one(unit: u16, rest: Seq<u16>)
    ensures
        unit < 0xD800 || unit > 0xDFFF ==> decoded(seq![unit] + rest) == seq![unit as char]
            + decoded(rest),
        0xDC00 <= unit <= 0xDFFF ==> decoded(seq![unit] + rest) == seq!['\u{fffd}'] + decoded(rest),
        0xD800 <= unit <= 0xDBFF && (rest.len() == 0 || rest[0] < 0xDC00 || rest[0] > 0xDFFF)
            ==> decoded(seq![unit] + rest) == seq!['\u{fffd}'] + decoded(rest),
        decoded(Seq::empty()).len() == 0,
{
    let units = seq![unit] + rest;
    assert(units.skip(1) =~= rest);
    if rest.len() > 0 {
        assert(units[1] == rest[0]);
    }
}

} // verus!
