//! Executable conversions: text to a null-terminated wide buffer, and a
//! wide buffer back to text.

use crate::utf16::combined_scalar;
use crate::utf16::decode_utf16;
use crate::utf16::encode_char;
use crate::utf16::encode_utf16;
use crate::utf16::is_high_surrogate;
use crate::utf16::is_low_surrogate;
use crate::utf16::is_surrogate;
use crate::utf16::lemma_encode_utf16_snoc;
use crate::utf16::text_of;
use crate::utf16::trim_trailing_nulls;
use crate::utf16::utf16_length;
use crate::utf16::valid_utf16;
use crate::utf16::wide_of;
use vstd::prelude::*;
use vstd::slice::slice_to_vec;
use vstd::utf8::char_is_scalar;
use vstd::utf8::char_u32_cast;
use vstd::utf8::is_scalar;

verus! {

/// The decoder's failure value: the input was not valid UTF-16. It carries
/// the raw code units that could not be decoded, for diagnostics.
#[derive(Debug, PartialEq, Eq)]
pub struct DecodeError {
    units: Vec<u16>,
}

impl View for DecodeError {
    type V = Seq<u16>;

    closed spec fn view(&self) -> Seq<u16> {
        self.units@
    }
}

impl DecodeError {
    /// The raw code units that failed to decode.
    pub fn units(&self) -> (r: &Vec<u16>)
        ensures
            r@ == self@,
    {
        &self.units
    }
}

/// Relies on char::from_u32: it returns `Some` exactly on Unicode scalar
/// values, and the returned character has the given value.
pub assume_specification[ char::from_u32 ](v: u32) -> (r: Option<char>)
    ensures
        r is Some <==> is_scalar(v),
        r matches Some(c) ==> c as u32 == v,
;

/// Relies on String::push: it appends the given character at the end.
#[verifier::external_body]
fn push_char(s: &mut String, c: char)
    ensures
        final(s)@ == old(s)@.push(c),
{
    s.push(c);
}

/// The character with the given scalar value.
fn char_from_scalar(v: u32) -> (c: char)
    requires
        is_scalar(v),
    ensures
        c as u32 == v,
        c == (v as char),
{
    match char::from_u32(v) {
        Some(c) => {
            proof {
                char_u32_cast(c, v);
            }
            c
        },
        None => unreached(),
    }
}

/// Append the UTF-16 code units of one character: the unit equal to its
/// scalar value, or a surrogate pair for values above 0xFFFF.
fn push_units(out: &mut Vec<u16>, c: char)
    ensures
        final(out)@ == old(out)@ + encode_char(c),
{
    proof {
        char_is_scalar(c);
    }
    let v: u32 = c as u32;
    if v < 0x10000 {
        out.push(v as u16);
        assert(final(out)@ =~= old(out)@ + encode_char(c));
    } else {
        let d: u32 = v - 0x10000;
        let hi: u32 = 0xD800 + d / 0x400;
        let lo: u32 = 0xDC00 + d % 0x400;
        out.push(hi as u16);
        out.push(lo as u16);
        assert(final(out)@ =~= old(out)@ + encode_char(c));
    }
}

/// Encode `s` as UTF-16 and append a single zero terminator.
///
/// The result is the transcoding of `s`, in order, followed by exactly one
/// zero code unit; its length is the UTF-16 length of `s` plus one. This
/// never fails: every text is representable in UTF-16.
pub fn to_wide(s: &str) -> (r: Vec<u16>)
    ensures
        r@ == wide_of(s@),
        r@.len() == utf16_length(s@) + 1,
        r@[r@.len() - 1] == 0u16,
{
    let n: usize = s.unicode_len();
    let mut out: Vec<u16> = Vec::new();
    let mut i: usize = 0;
    while i < n
        invariant
            n == s@.len(),
            i <= n,
            out@ == encode_utf16(s@.take(i as int)),
        decreases n - i,
    {
        let c = s.get_char(i);
        push_units(&mut out, c);
        proof {
            lemma_encode_utf16_snoc(s@.take(i as int), c);
            assert(s@.take(i + 1) =~= s@.take(i as int).push(c));
        }
        i += 1;
    }
    assert(s@.take(n as int) =~= s@);
    out.push(0u16);
    out
}

/// Decode a UTF-16 wide buffer into text.
///
/// Succeeds exactly when `w` is valid UTF-16, that is, when every surrogate
/// unit occurs as a high surrogate immediately followed by a low one. On
/// success the result is the decoded text with every trailing null
/// character removed; nulls elsewhere are kept. On failure the error
/// carries the raw input units for diagnostics.
pub fn from_wide(w: &[u16]) -> (r: Result<String, DecodeError>)
    ensures
        r is Ok <==> valid_utf16(w@),
        r matches Ok(t) ==> t@ == text_of(w@),
        r matches Err(e) ==> e@ == w@,
{
    let n: usize = w.len();
    let mut chars: Vec<char> = Vec::new();
    let mut i: usize = 0;
    proof {
        assert(w@.skip(0) =~= w@);
        assert(Seq::<char>::empty() + decode_utf16(w@) =~= decode_utf16(w@));
    }
    while i < n
        invariant
            n == w@.len(),
            i <= n,
            valid_utf16(w@) == valid_utf16(w@.skip(i as int)),
            valid_utf16(w@.skip(i as int)) ==> decode_utf16(w@) == chars@ + decode_utf16(
                w@.skip(i as int),
            ),
        decreases n - i,
    {
        let ghost su = w@.skip(i as int);
        assert(su.len() == n - i);
        assert(su[0] == w@[i as int]);
        let u: u16 = w[i];
        if u < 0xD800 || u > 0xDFFF {
            assert(!is_surrogate(u));
            let v: u32 = u as u32;
            assert(is_scalar(v));
            let c = char_from_scalar(v);
            let ghost pre = chars@;
            chars.push(c);
            proof {
                assert(su.drop_first() =~= w@.skip(i + 1));
                if valid_utf16(su) {
                    assert(decode_utf16(su) == seq![(su[0] as u32) as char] + decode_utf16(
                        su.drop_first(),
                    ));
                    assert(pre + (seq![c] + decode_utf16(w@.skip(i + 1))) =~= pre.push(c)
                        + decode_utf16(w@.skip(i + 1)));
                }
            }
            i += 1;
        } else if u <= 0xDBFF {
            assert(is_high_surrogate(u));
            if i + 1 < n {
                assert(su.len() >= 2);
                assert(su[1] == w@[i + 1]);
                let u2: u16 = w[i + 1];
                if 0xDC00 <= u2 && u2 <= 0xDFFF {
                    assert(is_low_surrogate(u2));
                    let v: u32 = 0x10000 + ((u as u32) - 0xD800) * 0x400 + ((u2 as u32) - 0xDC00);
                    assert(v == combined_scalar(u, u2));
                    assert(is_scalar(v));
                    let c = char_from_scalar(v);
                    let ghost pre = chars@;
                    chars.push(c);
                    proof {
                        assert(su.skip(2) =~= w@.skip(i + 2));
                        if valid_utf16(su) {
                            assert(decode_utf16(su) == seq![combined_scalar(su[0], su[1]) as char]
                                + decode_utf16(su.skip(2)));
                            assert(pre + (seq![c] + decode_utf16(w@.skip(i + 2))) =~= pre.push(c)
                                + decode_utf16(w@.skip(i + 2)));
                        }
                    }
                    i += 2;
                } else {
                    assert(!valid_utf16(su));
                    return Err(DecodeError { units: slice_to_vec(w) });
                }
            } else {
                assert(su.len() == 1);
                assert(!valid_utf16(su));
                return Err(DecodeError { units: slice_to_vec(w) });
            }
        } else {
            assert(is_low_surrogate(u) && !is_high_surrogate(u));
            assert(!valid_utf16(su));
            return Err(DecodeError { units: slice_to_vec(w) });
        }
    }
    proof {
        assert(w@.skip(n as int) =~= Seq::<u16>::empty());
        assert(valid_utf16(Seq::<u16>::empty()));
        assert(decode_utf16(Seq::<u16>::empty()) == Seq::<char>::empty());
        assert(chars@ + Seq::<char>::empty() =~= chars@);
    }
    let ghost full = decode_utf16(w@);
    assert(chars@ == full);
    while chars.len() > 0 && chars[chars.len() - 1] == '\0'
        invariant
            trim_trailing_nulls(chars@) == trim_trailing_nulls(full),
        decreases chars@.len(),
    {
        let ghost pre = chars@;
        chars.pop();
        proof {
            assert(pre.subrange(0, pre.len() - 1) =~= pre.drop_last());
            assert(trim_trailing_nulls(pre) == trim_trailing_nulls(pre.drop_last()));
        }
    }
    assert(trim_trailing_nulls(chars@) == chars@);
    let m: usize = chars.len();
    let mut text = String::new();
    let mut j: usize = 0;
    while j < m
        invariant
            m == chars@.len(),
            j <= m,
            text@ == chars@.take(j as int),
        decreases m - j,
    {
        let c = chars[j];
        push_char(&mut text, c);
        proof {
            assert(chars@.take(j + 1) =~= chars@.take(j as int).push(c));
        }
        j += 1;
    }
    assert(chars@.take(m as int) =~= chars@);
    Ok(text)
}

} // verus!
