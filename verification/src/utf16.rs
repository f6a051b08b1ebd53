//! Specification of the UTF-16 encoding: how a sequence of characters maps
//! to 16-bit code units, which code unit sequences are valid, what they
//! decode to, and how trailing null characters are trimmed.

use vstd::arithmetic::div_mod::lemma_fundamental_div_mod;
use vstd::prelude::*;
use vstd::utf8::char_is_scalar;
use vstd::utf8::char_u32_cast;

verus! {

/// A code unit in the high (leading) surrogate range.
pub open spec fn is_high_surrogate(u: u16) -> bool {
    0xD800 <= u <= 0xDBFF
}

/// A code unit in the low (trailing) surrogate range.
pub open spec fn is_low_surrogate(u: u16) -> bool {
    0xDC00 <= u <= 0xDFFF
}

/// A code unit in either surrogate range; such a unit never stands alone.
pub open spec fn is_surrogate(u: u16) -> bool {
    is_high_surrogate(u) || is_low_surrogate(u)
}

/// The scalar value jointly encoded by a surrogate pair.
pub open spec fn combined_scalar(hi: u16, lo: u16) -> u32 {
    (0x10000 + (hi - 0xD800) * 0x400 + (lo - 0xDC00)) as u32
}

/// The UTF-16 code units of a single character: one unit for scalar values
/// below 0x10000, otherwise a high/low surrogate pair.
pub open spec fn encode_char(c: char) -> Seq<u16> {
    let v = c as u32;
    if v < 0x10000 {
        seq![v as u16]
    } else {
        seq![
            (0xD800 + (v - 0x10000) / 0x400) as u16,
            (0xDC00 + (v - 0x10000) % 0x400) as u16,
        ]
    }
}

/// The UTF-16 transcoding of a character sequence, in order.
pub open spec fn encode_utf16(s: Seq<char>) -> Seq<u16>
    decreases s.len(),
{
    if s.len() == 0 {
        Seq::empty()
    } else {
        encode_char(s[0]) + encode_utf16(s.drop_first())
    }
}

/// The number of code units in the UTF-16 transcoding of `s`.
pub open spec fn utf16_length(s: Seq<char>) -> int {
    encode_utf16(s).len() as int
}

/// What the encoder produces: the transcoding followed by one zero terminator.
pub open spec fn wide_of(s: Seq<char>) -> Seq<u16> {
    encode_utf16(s).push(0u16)
}

/// A code unit sequence is valid UTF-16 when every surrogate unit occurs
/// as a high surrogate immediately followed by a low surrogate.
pub open spec fn valid_utf16(w: Seq<u16>) -> bool
    decreases w.len(),
{
    if w.len() == 0 {
        true
    } else if !is_surrogate(w[0]) {
        valid_utf16(w.drop_first())
    } else if is_high_surrogate(w[0]) && w.len() >= 2 && is_low_surrogate(w[1]) {
        valid_utf16(w.skip(2))
    } else {
        false
    }
}

/// The characters a valid UTF-16 sequence decodes to; meaningful only
/// where `valid_utf16` holds.
pub open spec fn decode_utf16(w: Seq<u16>) -> Seq<char>
    decreases w.len(),
{
    if w.len() == 0 {
        Seq::empty()
    } else if !is_surrogate(w[0]) {
        seq![(w[0] as u32) as char] + decode_utf16(w.drop_first())
    } else if is_high_surrogate(w[0]) && w.len() >= 2 && is_low_surrogate(w[1]) {
        seq![combined_scalar(w[0], w[1]) as char] + decode_utf16(w.skip(2))
    } else {
        Seq::empty()
    }
}

/// `s` with every trailing null character removed.
pub open spec fn trim_trailing_nulls(s: Seq<char>) -> Seq<char>
    decreases s.len(),
{
    if s.len() > 0 && s[s.len() - 1] == '\0' {
        trim_trailing_nulls(s.drop_last())
    } else {
        s
    }
}

/// What the decoder returns on a valid buffer: the decoded characters with
/// all trailing nulls stripped.
pub open spec fn text_of(w: Seq<u16>) -> Seq<char> {
    trim_trailing_nulls(decode_utf16(w))
}

/// The code units of one character, put in front of any tail, are valid
/// exactly when the tail is, and decode back to that character followed by
/// whatever the tail decodes to.
pub proof fn lemma_decode_encode_char(c: char, rest: Seq<u16>)
    ensures
        valid_utf16(encode_char(c) + rest) == valid_utf16(rest),
        decode_utf16(encode_char(c) + rest) == seq![c] + decode_utf16(rest),
{
    char_is_scalar(c);
    let v = c as u32;
    let w = encode_char(c) + rest;
    char_u32_cast(c, v);
    if v < 0x10000 {
        assert(w[0] == v as u16);
        assert(!is_surrogate(w[0]));
        assert(w.drop_first() =~= rest);
        assert((w[0] as u32) == v);
        assert(decode_utf16(w) =~= seq![c] + decode_utf16(rest));
    } else {
        let d = (v - 0x10000) as int;
        lemma_fundamental_div_mod(d, 0x400);
        assert(0 <= d / 0x400 <= 0x3FF);
        assert(0 <= d % 0x400 <= 0x3FF);
        let hi = (0xD800 + d / 0x400) as u16;
        let lo = (0xDC00 + d % 0x400) as u16;
        assert(w.len() >= 2);
        assert(w[0] == hi && w[1] == lo);
        assert(is_high_surrogate(hi));
        assert(is_low_surrogate(lo));
        assert(combined_scalar(hi, lo) == v);
        assert(w.skip(2) =~= rest);
        assert(decode_utf16(w) =~= seq![c] + decode_utf16(rest));
    }
}

/// The transcoding of a text in front of any tail is valid exactly when the
/// tail is, and decodes to the text followed by whatever the tail decodes to.
pub proof fn lemma_decode_encode_concat(s: Seq<char>, rest: Seq<u16>)
    ensures
        valid_utf16(encode_utf16(s) + rest) == valid_utf16(rest),
        decode_utf16(encode_utf16(s) + rest) == s + decode_utf16(rest),
    decreases s.len(),
{
    if s.len() == 0 {
        assert(encode_utf16(s) + rest =~= rest);
        assert(s + decode_utf16(rest) =~= decode_utf16(rest));
    } else {
        lemma_decode_encode_concat(s.drop_first(), rest);
        let tail = encode_utf16(s.drop_first()) + rest;
        assert(encode_utf16(s) + rest =~= encode_char(s[0]) + tail);
        lemma_decode_encode_char(s[0], tail);
        assert(seq![s[0]] + (s.drop_first() + decode_utf16(rest)) =~= s + decode_utf16(rest));
    }
}

/// UTF-16 transcoding loses nothing: the encoder's raw output is valid and
/// decodes to the text it came from.
pub proof fn lemma_decode_encode(s: Seq<char>)
    ensures
        valid_utf16(encode_utf16(s)),
        decode_utf16(encode_utf16(s)) == s,
{
    lemma_decode_encode_concat(s, Seq::empty());
    assert(encode_utf16(s) + Seq::<u16>::empty() =~= encode_utf16(s));
    assert(s + Seq::<char>::empty() =~= s);
}

/// Encoding distributes over appending one character at the end.
pub proof fn lemma_encode_utf16_snoc(t: Seq<char>, c: char)
    ensures
        encode_utf16(t.push(c)) == encode_utf16(t) + encode_char(c),
    decreases t.len(),
{
    if t.len() == 0 {
        assert(t.push(c)[0] == c);
        assert(t.push(c).drop_first() =~= Seq::<char>::empty());
        assert(encode_utf16(Seq::<char>::empty()) == Seq::<u16>::empty());
        assert(encode_char(c) + Seq::<u16>::empty() =~= encode_char(c));
        assert(encode_utf16(t) + encode_char(c) =~= encode_char(c));
    } else {
        lemma_encode_utf16_snoc(t.drop_first(), c);
        assert(t.push(c).drop_first() =~= t.drop_first().push(c));
        assert(t.push(c)[0] == t[0]);
        assert(encode_char(t[0]) + (encode_utf16(t.drop_first()) + encode_char(c)) =~= (
        encode_char(t[0]) + encode_utf16(t.drop_first())) + encode_char(c));
    }
}

/// Appending a null character changes nothing about the trimmed text.
pub proof fn lemma_trim_push_null(s: Seq<char>)
    ensures
        trim_trailing_nulls(s.push('\0')) == trim_trailing_nulls(s),
{
    let t = s.push('\0');
    assert(t[t.len() - 1] == '\0');
    assert(t.drop_last() =~= s);
}

/// Trimming is idempotent: a second pass removes nothing.
pub proof fn lemma_trim_idempotent(s: Seq<char>)
    ensures
        trim_trailing_nulls(trim_trailing_nulls(s)) == trim_trailing_nulls(s),
    decreases s.len(),
{
    if s.len() > 0 && s[s.len() - 1] == '\0' {
        lemma_trim_idempotent(s.drop_last());
    }
}

/// The trimmed text is the prefix of `s` left after removing a (possibly
/// empty) run of null characters at the end, and it never ends in a null
/// itself.
pub proof fn lemma_trim_shape(s: Seq<char>)
    ensures
        trim_trailing_nulls(s).len() <= s.len(),
        trim_trailing_nulls(s) == s.take(trim_trailing_nulls(s).len() as int),
        forall|i: int|
            trim_trailing_nulls(s).len() <= i < s.len() ==> s[i] == '\0',
        trim_trailing_nulls(s).len() > 0 ==> trim_trailing_nulls(s)[trim_trailing_nulls(
            s,
        ).len() - 1] != '\0',
    decreases s.len(),
{
    if s.len() > 0 && s[s.len() - 1] == '\0' {
        lemma_trim_shape(s.drop_last());
        assert(s.drop_last() =~= s.take(s.len() - 1));
        assert(s.drop_last().take(trim_trailing_nulls(s).len() as int) =~= s.take(
            trim_trailing_nulls(s).len() as int,
        ));
        assert forall|i: int| trim_trailing_nulls(s).len() <= i < s.len() implies s[i]
            == '\0' by {
            if i < s.len() - 1 {
                assert(s.drop_last()[i] == s[i]);
            }
        }
    }
}

/// Decoding is a pure function of the buffer: any two texts that satisfy
/// the decoder's contract on the same buffer are equal. There is no hidden
/// state to make one call differ from the next.
pub proof fn lemma_decode_deterministic(w: Seq<u16>, t1: Seq<char>, t2: Seq<char>)
    requires
        t1 == text_of(w),
        t2 == text_of(w),
    ensures
        t1 == t2,
{
}

/// Encoding then decoding gives back the text with its trailing nulls
/// stripped; on a text with no trailing null, exactly the original text.
/// Every buffer the encoder produces is therefore valid UTF-16 and decodes
/// successfully.
pub proof fn lemma_round_trip(s: Seq<char>)
    ensures
        valid_utf16(wide_of(s)),
        decode_utf16(wide_of(s)) == s.push('\0'),
        text_of(wide_of(s)) == trim_trailing_nulls(s),
        (s.len() == 0 || s[s.len() - 1] != '\0') ==> text_of(wide_of(s)) == s,
{
    let term = seq![0u16];
    assert(wide_of(s) =~= encode_utf16(s) + term);
    lemma_decode_encode_concat(s, term);
    assert('\0' as u32 == 0);
    char_u32_cast('\0', 0);
    assert(!is_surrogate(term[0]));
    assert(term.drop_first() =~= Seq::<u16>::empty());
    assert(valid_utf16(Seq::<u16>::empty()));
    assert(valid_utf16(term));
    assert(decode_utf16(Seq::<u16>::empty()) == Seq::<char>::empty());
    assert(decode_utf16(term) == seq![(term[0] as u32) as char] + decode_utf16(
        term.drop_first(),
    ));
    assert(decode_utf16(term) =~= seq!['\0']);
    assert(s + seq!['\0'] =~= s.push('\0'));
    lemma_trim_push_null(s);
}

} // verus!
