//! The pure pieces of configuration handling: the loading-mode and
//! backend choices with their textual forms, and the small parsers the
//! command line and the config file share. Reading and writing the config
//! itself is I/O and lives outside this crate.

use vstd::prelude::*;
use vstd::string::*;

use crate::events::NoteColor;

verus! {

/// How the MIDI stream is loaded: fully into memory before playback, or
/// decoded incrementally while playing, for systems with little memory.
#[derive(Clone, Copy, Debug, PartialEq, Eq, Structural)]
pub enum MidiLoading {
    Ram,
    Live,
}

/// Which synthesizer backend to drive.
#[derive(Clone, Copy, Debug, PartialEq, Eq, Structural)]
pub enum Synth {
    XSynth,
    Kdmapi,
}

/// Whether two strings hold the same characters.
pub fn str_eq(a: &str, b: &str) -> (r: bool)
    ensures
        r == (a@ == b@),
{
    let n = a.unicode_len();
    if n != b.unicode_len() {
        proof {
            assert(a@.len() != b@.len());
        }
        return false;
    }
    let mut i: usize = 0;
    while i < n
        invariant
            i <= n,
            n == a@.len() == b@.len(),
            forall|j: int| 0 <= j < i ==> a@[j] == b@[j],
        decreases n - i,
    {
        if a.get_char(i) != b.get_char(i) {
            return false;
        }
        i += 1;
    }
    proof {
        assert(a@ =~= b@);
    }
    true
}

impl MidiLoading {
    /// Reads the textual form: `ram` (in any of its usual spellings) or
    /// `live`; anything else is rejected with a message.
    pub fn from_str(s: &str) -> (r: Result<MidiLoading, String>)
        ensures
            match r {
                Ok(m) => (m == MidiLoading::Ram <==> (s@ == "ram"@ || s@
                    == "RAM"@ || s@ == "Ram"@)) && (m
                    == MidiLoading::Live <==> (s@ == "live"@ || s@
                    == "Live"@)),
                Err(m) => s@ != "ram"@ && s@ != "RAM"@ && s@ != "Ram"@ && s@ != "live"@ && s@
                    != "Live"@ && m@ == s@ + " was not expected. Expected one of `ram`, or `live`"@,
            },
    {
        proof {
            reveal_strlit("ram");
            reveal_strlit("RAM");
            reveal_strlit("Ram");
            reveal_strlit("live");
            reveal_strlit("Live");
            assert("ram"@.len() == 3 && "RAM"@.len() == 3 && "Ram"@.len() == 3);
            assert("live"@.len() == 4 && "Live"@.len() == 4);
            assert("ram"@[0] == 'r' && "RAM"@[0] == 'R' && "Ram"@[0] == 'R');
            assert("RAM"@[1] == 'A' && "Ram"@[1] == 'a');
            assert("live"@[0] == 'l' && "Live"@[0] == 'L');
        }
        if str_eq(s, "ram") || str_eq(s, "RAM") || str_eq(s, "Ram") {
            Ok(MidiLoading::Ram)
        } else if str_eq(s, "live") || str_eq(s, "Live") {
            Ok(MidiLoading::Live)
        } else {
            Err(s.to_owned().concat(" was not expected. Expected one of `ram`, or `live`"))
        }
    }
}

impl Synth {
    /// Reads the textual form: `xsynth` or `kdmapi` (in the spellings the
    /// command line accepts); anything else is rejected with a message.
    pub fn from_str(s: &str) -> (r: Result<Synth, String>)
        ensures
            match r {
                Ok(m) => (m == Synth::XSynth <==> (s@ == "xsynth"@
                    || s@ == "XSynth"@)) && (m == Synth::Kdmapi <==> (
                s@ == "kdmapi"@ || s@ == "KDMPAI"@)),
                Err(m) => s@ != "xsynth"@ && s@ != "XSynth"@ && s@ != "kdmapi"@ && s@
                    != "KDMPAI"@ && m@ == s@
                    + " was not expected. Expected one of `xsynth`, or `kdmapi`"@,
            },
    {
        proof {
            reveal_strlit("xsynth");
            reveal_strlit("XSynth");
            reveal_strlit("kdmapi");
            reveal_strlit("KDMPAI");
            assert("xsynth"@.len() == 6 && "XSynth"@.len() == 6 && "kdmapi"@.len() == 6
                && "KDMPAI"@.len() == 6);
            assert("xsynth"@[0] == 'x' && "XSynth"@[0] == 'X' && "kdmapi"@[0] == 'k'
                && "KDMPAI"@[0] == 'K');
        }
        if str_eq(s, "xsynth") || str_eq(s, "XSynth") {
            Ok(Synth::XSynth)
        } else if str_eq(s, "kdmapi") || str_eq(s, "KDMPAI") {
            Ok(Synth::Kdmapi)
        } else {
            Err(s.to_owned().concat(" was not expected. Expected one of `xsynth`, or `kdmapi`"))
        }
    }
}

/// A decimal digit byte.
pub open spec fn spec_is_digit(c: u8) -> bool {
    48 <= c <= 57
}

/// All bytes of the range are decimal digits.
pub open spec fn spec_all_digits(b: Seq<u8>) -> bool {
    forall|i: int| 0 <= i < b.len() ==> spec_is_digit(#[trigger] b[i])
}

/// The decimal value of a digit string.
pub open spec fn spec_dec_val(b: Seq<u8>) -> int
    decreases b.len(),
{
    if b.len() == 0 {
        0
    } else {
        spec_dec_val(b.drop_last()) * 10 + (b.last() - 48)
    }
}

/// A digit string's value is never negative.
pub proof fn lemma_dec_val_nonneg(b: Seq<u8>)
    requires
        spec_all_digits(b),
    ensures
        spec_dec_val(b) >= 0,
    decreases b.len(),
{
    if b.len() > 0 {
        assert(spec_all_digits(b.drop_last()));
        lemma_dec_val_nonneg(b.drop_last());
    }
}

/// Reading one more digit multiplies by ten and adds it.
pub proof fn lemma_dec_val_extend(b: Seq<u8>, i: int)
    requires
        0 <= i < b.len(),
    ensures
        spec_dec_val(b.take(i + 1)) == spec_dec_val(b.take(i)) * 10 + (b[i] - 48),
{
    assert(b.take(i + 1).drop_last() =~= b.take(i));
    assert(b.take(i + 1).last() == b[i]);
}

/// A digit string's value only grows as more digits are read.
pub proof fn lemma_dec_val_prefix_le(b: Seq<u8>, i: int)
    requires
        spec_all_digits(b),
        0 <= i <= b.len(),
    ensures
        spec_dec_val(b.take(i)) <= spec_dec_val(b),
    decreases b.len() - i,
{
    if i < b.len() {
        lemma_dec_val_extend(b, i);
        assert(spec_all_digits(b.take(i)));
        lemma_dec_val_nonneg(b.take(i));
        lemma_dec_val_prefix_le(b, i + 1);
    } else {
        assert(b.take(i) =~= b);
    }
}

/// The digit part of a number token: everything behind one optional
/// leading plus sign, as the standard `u8` parser reads it.
pub open spec fn spec_num_digits(b: Seq<u8>) -> Seq<u8> {
    if b.len() > 0 && b[0] == 43 {
        b.skip(1)
    } else {
        b
    }
}

/// Whether the bytes are a decimal number that fits a `u8`, exactly as
/// the standard parser accepts one: an optional leading `+`, then at
/// least one digit, value at most 255; leading zeros allowed.
pub open spec fn spec_u8_str_ok(b: Seq<u8>) -> bool {
    let d = spec_num_digits(b);
    d.len() > 0 && spec_all_digits(d) && spec_dec_val(d) <= 255
}

/// The value of such a number.
pub open spec fn spec_u8_str_val(b: Seq<u8>) -> int {
    spec_dec_val(spec_num_digits(b))
}

/// The first non-digit position in `d` at or after `i`, or the length.
pub open spec fn spec_digit_run(d: Seq<u8>, i: int) -> int
    decreases d.len() - i when 0 <= i <= d.len()
{
    if i >= d.len() {
        d.len() as int
    } else if !spec_is_digit(d[i]) {
        i
    } else {
        spec_digit_run(d, i + 1)
    }
}

/// What bounds the digit run: everything before it is a digit, what it
/// stops at is not.
pub proof fn lemma_digit_run_props(d: Seq<u8>, i: int)
    requires
        0 <= i <= d.len(),
    ensures
        i <= spec_digit_run(d, i) <= d.len(),
        forall|j: int| i <= j < spec_digit_run(d, i) ==> spec_is_digit(#[trigger] d[j]),
        spec_digit_run(d, i) < d.len() ==> !spec_is_digit(d[spec_digit_run(d, i)]),
    decreases d.len() - i,
{
    if i < d.len() && spec_is_digit(d[i]) {
        lemma_digit_run_props(d, i + 1);
    }
}

/// Why a number token is rejected, in the standard parser's taxonomy:
/// the token is empty; the digits overflow a `u8` before anything else
/// goes wrong; or a non-digit stops the scan first.
#[derive(Clone, Copy, Debug, PartialEq, Eq, Structural)]
pub enum NumParseError {
    Empty,
    InvalidDigit,
    Overflow,
}

/// Which failure a rejected number token reports: empty token; overflow
/// when the leading digit run already exceeds 255 (the scan hits the
/// overflow before the offending byte); otherwise an invalid digit.
pub open spec fn spec_u8_str_err(b: Seq<u8>) -> NumParseError {
    let d = spec_num_digits(b);
    if b.len() == 0 {
        NumParseError::Empty
    } else if spec_dec_val(d.take(spec_digit_run(d, 0))) > 255 {
        NumParseError::Overflow
    } else {
        NumParseError::InvalidDigit
    }
}

/// The standard parser's wording for each failure.
pub open spec fn spec_num_err_msg(e: NumParseError) -> Seq<char> {
    match e {
        NumParseError::Empty => "cannot parse integer from empty string"@,
        NumParseError::InvalidDigit => "invalid digit found in string"@,
        NumParseError::Overflow => "number too large to fit in target type"@,
    }
}

/// The standard parser's wording for each failure, as a message.
pub fn num_err_msg(e: NumParseError) -> (r: String)
    ensures
        r@ == spec_num_err_msg(e),
{
    match e {
        NumParseError::Empty => "cannot parse integer from empty string".to_owned(),
        NumParseError::InvalidDigit => "invalid digit found in string".to_owned(),
        NumParseError::Overflow => "number too large to fit in target type".to_owned(),
    }
}

/// Parses the byte range `from..to` as a decimal `u8`, exactly as the
/// standard parser accepts one: an optional leading `+`, then at least
/// one digit, value at most 255, leading zeros allowed; rejections carry
/// the standard taxonomy.
#[verifier::loop_isolation(false)]
pub fn parse_u8_digits(b: &[u8], from: usize, to: usize) -> (r: Result<u8, NumParseError>)
    requires
        from <= to <= b@.len(),
    ensures
        ({
            let tok = b@.subrange(from as int, to as int);
            match r {
                Ok(v) => spec_u8_str_ok(tok) && v == spec_u8_str_val(tok),
                Err(e) => !spec_u8_str_ok(tok) && e == spec_u8_str_err(tok),
            }
        }),
{
    let ghost tok = b@.subrange(from as int, to as int);
    if from == to {
        return Err(NumParseError::Empty);
    }
    let start: usize = if b[from] == 43 {
        from + 1
    } else {
        from
    };
    let ghost d = spec_num_digits(tok);
    proof {
        if tok[0] == 43 {
            assert(tok.skip(1) =~= b@.subrange(start as int, to as int));
        }
        assert(d == b@.subrange(start as int, to as int));
    }
    if start == to {
        // A lone sign: the digit part is empty, so its (empty) digit run
        // cannot overflow.
        proof {
            assert(spec_dec_val(d.take(spec_digit_run(d, 0))) == 0);
        }
        return Err(NumParseError::InvalidDigit);
    }
    let mut acc: u32 = 0;
    let mut i: usize = start;
    while i < to
        invariant
            start <= i <= to,
            acc == spec_dec_val(d.take(i - start)),
            acc <= 255,
            spec_all_digits(d.take(i - start)),
            spec_digit_run(d, 0) == spec_digit_run(d, i - start),
        decreases to - i,
    {
        let c = b[i];
        proof {
            assert(d[i - start] == c);
            lemma_dec_val_extend(d, i - start);
        }
        if !(48 <= c && c <= 57) {
            proof {
                assert(!spec_is_digit(d[i - start]));
                assert(spec_digit_run(d, i - start) == i - start);
                assert(d.take(spec_digit_run(d, 0)) =~= d.take(i - start));
            }
            return Err(NumParseError::InvalidDigit);
        }
        let ghost taken = d.take(i - start + 1);
        proof {
            assert(spec_all_digits(taken)) by {
                assert(forall|j: int|
                    0 <= j < taken.len() - 1 ==> taken[j] == #[trigger] d.take(i - start)[j]);
            }
            assert(spec_digit_run(d, i - start) == spec_digit_run(d, i - start + 1));
        }
        acc = acc * 10 + (c - 48) as u32;
        if acc > 255 {
            proof {
                let run = spec_digit_run(d, 0);
                lemma_digit_run_props(d, i - start + 1);
                assert(i - start + 1 <= run);
                let p = d.take(run);
                assert(spec_all_digits(p)) by {
                    lemma_digit_run_props(d, 0);
                    assert(forall|j: int| 0 <= j < p.len() ==> p[j] == #[trigger] d[j]);
                }
                assert(p.take(i - start + 1) =~= d.take(i - start + 1));
                lemma_dec_val_prefix_le(p, i - start + 1);
                assert(spec_dec_val(p) > 255);
                if spec_all_digits(d) {
                    assert(d.take(d.len() as int) =~= d);
                    lemma_digit_run_props(d, 0);
                    assert(run == d.len());
                    assert(spec_dec_val(d) > 255);
                }
            }
            return Err(NumParseError::Overflow);
        }
        i += 1;
    }
    proof {
        assert(d.take(to - start) =~= d);
    }
    Ok(acc as u8)
}

/// The first position of `c` in `b` at or after `i`, or the length.
pub open spec fn spec_find(b: Seq<u8>, c: u8, i: int) -> int
    decreases b.len() - i when 0 <= i <= b.len()
{
    if i >= b.len() {
        b.len() as int
    } else if b[i] == c {
        i
    } else {
        spec_find(b, c, i + 1)
    }
}

/// Finds the first position of `c`, or the length when absent.
#[verifier::loop_isolation(false)]
pub fn find_byte(b: &[u8], c: u8) -> (r: usize)
    ensures
        r == spec_find(b@, c, 0),
        r <= b@.len(),
{
    let n = b.len();
    let mut i: usize = 0;
    while i < n
        invariant
            i <= n == b@.len(),
            spec_find(b@, c, 0) == spec_find(b@, c, i as int),
        decreases n - i,
    {
        if b[i] == c {
            return i;
        }
        i += 1;
    }
    i
}

/// Reads two comma-separated decimal numbers as an inclusive `u8` range,
/// first number to second. Exactly the strings `a,b` whose sides the
/// standard `u8` parser accepts (an optional `+`, then digits) pass;
/// everything before the first comma is the first number, and a
/// rejection carries the standard parser's message for the side that
/// failed.
pub fn range_parser(s: &str) -> (r: Result<core::ops::RangeInclusive<u8>, String>)
    ensures
        ({
            let b = s.spec_bytes();
            let c = spec_find(b, 44, 0);
            let left = b.subrange(0, c);
            let right = b.subrange(c + 1, b.len() as int);
            match r {
                Ok(range) => {
                    &&& c < b.len()
                    &&& spec_u8_str_ok(left)
                    &&& spec_u8_str_ok(right)
                    &&& range@.start == spec_u8_str_val(left)
                    &&& range@.end == spec_u8_str_val(right)
                },
                Err(m) => {
                    &&& (c == b.len() || !spec_u8_str_ok(left) || !spec_u8_str_ok(right))
                    &&& m@ == if c == b.len() {
                        "This argument requires 2 numbers, comma seperated"@
                    } else if !spec_u8_str_ok(left) {
                        spec_num_err_msg(spec_u8_str_err(left))
                    } else {
                        spec_num_err_msg(spec_u8_str_err(right))
                    }
                },
            }
        }),
{
    let b = s.as_bytes();
    let comma = find_byte(b, 44);
    if comma == b.len() {
        return Err("This argument requires 2 numbers, comma seperated".to_owned());
    }
    let lo = match parse_u8_digits(b, 0, comma) {
        Ok(v) => v,
        Err(e) => { return Err(num_err_msg(e)) },
    };
    let hi = match parse_u8_digits(b, comma + 1, b.len()) {
        Ok(v) => v,
        Err(e) => { return Err(num_err_msg(e)) },
    };
    Ok(core::ops::RangeInclusive::new(lo, hi))
}

/// A hexadecimal digit byte.
pub open spec fn spec_is_hex(c: u8) -> bool {
    (48 <= c <= 57) || (97 <= c <= 102) || (65 <= c <= 70)
}

/// The value of a hexadecimal digit byte.
pub open spec fn spec_hex_val(c: u8) -> int {
    if 48 <= c <= 57 {
        c - 48
    } else if 97 <= c <= 102 {
        c - 87
    } else {
        c - 55
    }
}

/// The value of one hexadecimal digit, in either case.
pub fn hex_digit(c: u8) -> (r: Option<u8>)
    ensures
        r is Some <==> spec_is_hex(c),
        r is Some ==> r->Some_0 == spec_hex_val(c),
{
    if 48 <= c && c <= 57 {
        Some(c - 48)
    } else if 97 <= c && c <= 102 {
        Some(c - 87)
    } else if 65 <= c && c <= 70 {
        Some(c - 55)
    } else {
        None
    }
}

/// Whether the bytes from `h` on are `n` hexadecimal digits.
pub open spec fn spec_hex_run(b: Seq<u8>, h: int, n: int) -> bool {
    &&& b.len() - h == n
    &&& forall|i: int| h <= i < b.len() ==> spec_is_hex(#[trigger] b[i])
}

/// The color channel two hexadecimal digits encode.
pub open spec fn spec_hex_pair(b: Seq<u8>, i: int) -> int {
    spec_hex_val(b[i]) * 16 + spec_hex_val(b[i + 1])
}

/// Reads a CSS-style hex color: an optional `#`, then `RRGGBB`, or the
/// short form `RGB` where each digit doubles. Exactly these forms are
/// accepted.
pub fn color_parser(s: &str) -> (r: Result<NoteColor, String>)
    ensures
        ({
            let b = s.spec_bytes();
            let h = if b.len() > 0 && b[0] == 35 {
                1int
            } else {
                0int
            };
            match r {
                Ok(c) => (spec_hex_run(b, h, 6) && c.red == spec_hex_pair(b, h) && c.green
                    == spec_hex_pair(b, h + 2) && c.blue == spec_hex_pair(b, h + 4)) || (
                spec_hex_run(b, h, 3) && c.red == spec_hex_val(b[h]) * 17 && c.green == spec_hex_val(
                    b[h + 1],
                ) * 17 && c.blue == spec_hex_val(b[h + 2]) * 17),
                Err(_) => !spec_hex_run(b, h, 6) && !spec_hex_run(b, h, 3),
            }
        }),
{
    let b = s.as_bytes();
    let h: usize = if b.len() > 0 && b[0] == 35 {
        1
    } else {
        0
    };
    let n = b.len();
    if n - h == 6 {
        let d0 = hex_digit(b[h]);
        let d1 = hex_digit(b[h + 1]);
        let d2 = hex_digit(b[h + 2]);
        let d3 = hex_digit(b[h + 3]);
        let d4 = hex_digit(b[h + 4]);
        let d5 = hex_digit(b[h + 5]);
        match (d0, d1, d2, d3, d4, d5) {
            (Some(a0), Some(a1), Some(a2), Some(a3), Some(a4), Some(a5)) => {
                proof {
                    assert forall|i: int| h <= i < b@.len() implies spec_is_hex(#[trigger] b@[i]) by {}
                }
                Ok(
                    NoteColor {
                        red: a0 * 16 + a1,
                        green: a2 * 16 + a3,
                        blue: a4 * 16 + a5,
                    },
                )
            },
            _ => Err("invalid hex color".to_owned()),
        }
    } else if n - h == 3 {
        let d0 = hex_digit(b[h]);
        let d1 = hex_digit(b[h + 1]);
        let d2 = hex_digit(b[h + 2]);
        match (d0, d1, d2) {
            (Some(a0), Some(a1), Some(a2)) => {
                proof {
                    assert forall|i: int| h <= i < b@.len() implies spec_is_hex(#[trigger] b@[i]) by {}
                }
                Ok(NoteColor { red: a0 * 17, green: a1 * 17, blue: a2 * 17 })
            },
            _ => Err("invalid hex color".to_owned()),
        }
    } else {
        Err("invalid hex color".to_owned())
    }
}

} // verus!
