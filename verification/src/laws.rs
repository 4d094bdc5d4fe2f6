//! Laws of the decoder, stated and proved over [`parse_spec`]:
//! a synthesized binary graymap decodes back to its samples, a comment line
//! in front of a buffer changes nothing, and the decoder is deterministic.

use vstd::prelude::*;

use crate::errors::PgmError;
use crate::format::FormatTag;
use crate::format::format_of;
use crate::image::ImageModel;
use crate::numbers::all_digits;
use crate::numbers::digits_value;
use crate::numbers::is_digit;
use crate::parser::ascii_samples;
use crate::parser::narrow_samples;
use crate::parser::body_spec;
use crate::parser::lemma_next_field_props;
use crate::parser::next_field;
use crate::parser::parse_from;
use crate::parser::parse_spec;
use crate::tokenizer::after_line;
use crate::tokenizer::after_token;
use crate::tokenizer::is_ws;
use crate::tokenizer::lemma_line_end_bounds;
use crate::tokenizer::lemma_line_end_is;
use crate::tokenizer::lemma_line_end_shift;
use crate::tokenizer::lemma_token_end_bounds;
use crate::tokenizer::lemma_token_end_is;
use crate::tokenizer::lemma_token_end_shift;
use crate::tokenizer::token_end;

verus! {

/// The decimal-ASCII rendering of a non-negative number, most significant
/// digit first, no sign and no leading zeros (a lone zero for 0).
pub open spec fn dec_digits(n: int) -> Seq<u8>
    recommends
        n >= 0,
    decreases n,
{
    if n < 10 {
        seq![(48 + n) as u8]
    } else {
        dec_digits(n / 10) + seq![(48 + n % 10) as u8]
    }
}

/// The rendering of `n` is a non-empty token of digits that denotes `n`:
/// the numeric readers invert [`dec_digits`].
pub proof fn lemma_dec_digits(n: int)
    requires
        n >= 0,
    ensures
        dec_digits(n).len() >= 1,
        all_digits(dec_digits(n)),
        digits_value(dec_digits(n)) == n,
    decreases n,
{
    assert(digits_value(Seq::<u8>::empty()) == 0);
    if n < 10 {
        let t = dec_digits(n);
        assert(t.drop_last() =~= Seq::<u8>::empty());
        assert(t.last() == (48 + n) as u8);
        assert((48 + n) as u8 == 48 + n);
        assert(digits_value(t) == digits_value(t.drop_last()) * 10 + (t.last() - 48));
    } else {
        lemma_dec_digits(n / 10);
        let t = dec_digits(n);
        assert(t.drop_last() =~= dec_digits(n / 10));
        assert(t.last() == (48 + n % 10) as u8);
        assert((48 + n % 10) as u8 == 48 + n % 10);
        assert(digits_value(t) == digits_value(t.drop_last()) * 10 + (t.last() - 48));
        assert forall|j: int| 0 <= j < t.len() implies is_digit(#[trigger] t[j]) by {
            if j < t.len() - 1 {
                assert(t[j] == dec_digits(n / 10)[j]);
            }
        }
    }
}

/// The token `255` denotes the value 255.
pub proof fn lemma_value_of_255()
    ensures
        digits_value(seq![50u8, 53u8, 53u8]) == 255,
        all_digits(seq![50u8, 53u8, 53u8]),
{
    assert(digits_value(Seq::<u8>::empty()) == 0);
    assert(seq![50u8].drop_last() =~= Seq::<u8>::empty());
    assert(digits_value(seq![50u8]) == 2);
    assert(seq![50u8, 53u8].drop_last() =~= seq![50u8]);
    assert(digits_value(seq![50u8, 53u8]) == 25);
    assert(seq![50u8, 53u8, 53u8].drop_last() =~= seq![50u8, 53u8]);
    assert(digits_value(seq![50u8, 53u8, 53u8]) == 255);
}

/// A digit byte is neither whitespace nor the comment marker.
pub proof fn lemma_digit_is_plain(b: u8)
    requires
        is_digit(b),
    ensures
        !is_ws(b),
        b != 35,
{
}

/// `next_field` can be read off directly at a position where a token starts:
/// if no whitespace stands before `k`, whitespace (or the end) stands at `k`,
/// and the first byte is not the comment marker, the field is the bytes up
/// to `k` and the cursor lands one past `k`.
pub proof fn lemma_next_field_at(s: Seq<u8>, i: int, k: int)
    requires
        0 <= i < k <= s.len(),
        forall|j: int| i <= j < k ==> !is_ws(s[j]),
        k == s.len() || is_ws(s[k]),
        s[i] != 35,
    ensures
        next_field(s, i) == Option::Some(
            (
                s.subrange(i, k),
                if k < s.len() {
                    k + 1
                } else {
                    k
                },
            ),
        ),
{
    lemma_token_end_is(s, i, k);
}

/// Parsing is a pure function of the buffer: any two results that the
/// decoder's contract admits for the same buffer are equal, so parsing the
/// same immutable buffer twice yields identical images.
pub proof fn lemma_parse_deterministic(
    s: Seq<u8>,
    r1: Result<ImageModel, PgmError>,
    r2: Result<ImageModel, PgmError>,
)
    requires
        r1 matches Ok(img) ==> parse_spec(s) == Ok::<ImageModel, PgmError>(img),
        r1 matches Err(e) ==> parse_spec(s) == Err::<ImageModel, PgmError>(e),
        r2 matches Ok(img) ==> parse_spec(s) == Ok::<ImageModel, PgmError>(img),
        r2 matches Err(e) ==> parse_spec(s) == Err::<ImageModel, PgmError>(e),
    ensures
        r1 == r2,
{
}

/// A field scan depends only on the bytes from its position on: a prefix in
/// front shifts the field's position by the prefix's length and changes
/// neither the token nor whether one is found.
pub proof fn lemma_next_field_shift(a: Seq<u8>, b: Seq<u8>, i: int)
    requires
        0 <= i <= b.len(),
    ensures
        next_field(a + b, a.len() + i) == match next_field(b, i) {
            Option::None => Option::None::<(Seq<u8>, int)>,
            Option::Some((tok, j)) => Option::Some((tok, a.len() + j)),
        },
    decreases b.len() - i,
{
    let s = a + b;
    let al = a.len() as int;
    if i < b.len() {
        lemma_token_end_shift(a, b, i);
        lemma_line_end_shift(a, b, i);
        lemma_token_end_bounds(b, i);
        lemma_line_end_bounds(b, i);
        let e = token_end(b, i);
        let tok = b.subrange(i, e);
        assert(s.subrange(al + i, al + e) =~= tok);
        if tok.len() == 0 {
            lemma_next_field_shift(a, b, after_token(b, i));
        } else if tok[0] == 35 {
            lemma_next_field_shift(a, b, after_line(b, i));
        }
    }
}

/// An ASCII body's samples depend only on the bytes from its position on:
/// a prefix in front changes nothing.
pub proof fn lemma_ascii_samples_shift(a: Seq<u8>, b: Seq<u8>, i: int)
    requires
        0 <= i <= b.len(),
    ensures
        ascii_samples(a + b, a.len() + i) == ascii_samples(b, i),
    decreases b.len() - i,
{
    let s = a + b;
    let al = a.len() as int;
    if i < b.len() {
        lemma_token_end_shift(a, b, i);
        lemma_token_end_bounds(b, i);
        let e = token_end(b, i);
        let tok = b.subrange(i, e);
        assert(s.subrange(al + i, al + e) =~= tok);
        if tok.len() == 0 || (all_digits(tok) && digits_value(tok) <= u16::MAX) {
            lemma_ascii_samples_shift(a, b, after_token(b, i));
        }
    }
}

/// Decoding a body depends only on the bytes from its position on: a prefix
/// in front changes nothing.
pub proof fn lemma_body_spec_shift(
    a: Seq<u8>,
    b: Seq<u8>,
    i: int,
    tag: FormatTag,
    width: int,
    height: int,
    max_value: u16,
)
    requires
        0 <= i <= b.len(),
    ensures
        body_spec(a + b, a.len() + i, tag, width, height, max_value) == body_spec(
            b,
            i,
            tag,
            width,
            height,
            max_value,
        ),
{
    let s = a + b;
    let al = a.len() as int;
    assert(s.subrange(al + i, s.len() as int) =~= b.subrange(i, b.len() as int));
    lemma_ascii_samples_shift(a, b, i);
}

/// Decoding from a position depends only on the bytes from it on: a prefix
/// in front changes nothing.
pub proof fn lemma_parse_from_shift(a: Seq<u8>, b: Seq<u8>, i: int)
    requires
        0 <= i <= b.len(),
    ensures
        parse_from(a + b, a.len() + i) == parse_from(b, i),
{
    lemma_next_field_shift(a, b, i);
    match next_field(b, i) {
        Option::None => {},
        Option::Some((magic, i1)) => {
            lemma_next_field_props(b, i);
            lemma_next_field_shift(a, b, i1);
            match next_field(b, i1) {
                Option::None => {},
                Option::Some((wtok, i2)) => {
                    lemma_next_field_props(b, i1);
                    lemma_next_field_shift(a, b, i2);
                    match next_field(b, i2) {
                        Option::None => {},
                        Option::Some((htok, i3)) => {
                            lemma_next_field_props(b, i2);
                            lemma_next_field_shift(a, b, i3);
                            match next_field(b, i3) {
                                Option::None => {},
                                Option::Some((mtok, i4)) => {
                                    lemma_next_field_props(b, i3);
                                    match format_of(magic) {
                                        Option::None => {},
                                        Option::Some(tag) => {
                                            lemma_body_spec_shift(
                                                a,
                                                b,
                                                i4,
                                                tag,
                                                digits_value(wtok),
                                                digits_value(htok),
                                                digits_value(mtok) as u16,
                                            );
                                        },
                                    }
                                },
                            }
                        },
                    }
                },
            }
        },
    }
}

/// Comment skipping: a whole `#`-led comment line in front of a buffer —
/// embedded spaces and all — changes nothing about what the buffer decodes
/// to.
pub proof fn lemma_comment_line_ignored(comment: Seq<u8>, rest: Seq<u8>)
    requires
        comment.len() >= 2,
        comment[0] == 35,
        comment.last() == 10,
        forall|j: int| 0 <= j < comment.len() - 1 ==> comment[j] != 10,
    ensures
        parse_spec(comment + rest) == parse_spec(rest),
{
    let s = comment + rest;
    let cl = comment.len() as int;
    lemma_token_end_bounds(s, 0);
    assert(s[0] == 35 && !is_ws(s[0]));
    let e = token_end(s, 0);
    assert(s.subrange(0, e).len() > 0);
    assert(s.subrange(0, e)[0] == 35);
    assert(forall|j: int| 0 <= j < cl - 1 ==> s[j] == comment[j]);
    assert(s[cl - 1] == 10);
    lemma_line_end_is(s, 0, cl - 1);
    assert(after_line(s, 0) == cl);
    assert(next_field(s, 0) == next_field(s, cl));
    lemma_next_field_shift(comment, rest, 0);
    lemma_parse_from_shift(comment, rest, 0);
    assert(parse_from(s, 0) == parse_from(s, cl));
}

/// A synthetic binary graymap buffer: magic `P5`, decimal width, height and
/// a maximum sample value of 255, single-space separated, a newline before
/// the body, and one byte per sample.
pub open spec fn encode_graymap_binary_8(width: int, height: int, samples: Seq<u16>) -> Seq<u8> {
    seq![80u8, 53u8, 32u8] + dec_digits(width) + seq![32u8] + dec_digits(height) + seq![
        32u8,
        50u8,
        53u8,
        53u8,
        10u8,
    ] + samples.map(|i: int, v: u16| v as u8)
}

/// Round-trip: encoding any width x height samples that fit one byte each
/// as a binary graymap with maximum value 255, then decoding, reproduces
/// the samples exactly, in order.
#[verifier::rlimit(60)]
pub proof fn lemma_binary_graymap_roundtrip(width: usize, height: usize, samples: Seq<u16>)
    requires
        samples.len() == (width as int) * (height as int),
        forall|i: int| 0 <= i < samples.len() ==> #[trigger] samples[i] <= 255,
    ensures
        parse_spec(encode_graymap_binary_8(width as int, height as int, samples))
            == Ok::<ImageModel, PgmError>(
            ImageModel {
                data: samples,
                width: width as int,
                height: height as int,
                max_value: 255,
            },
        ),
{
    let wd = dec_digits(width as int);
    let hd = dec_digits(height as int);
    let body = samples.map(|i: int, v: u16| v as u8);
    let s = encode_graymap_binary_8(width as int, height as int, samples);
    lemma_dec_digits(width as int);
    lemma_dec_digits(height as int);
    let k1 = 3 + wd.len() as int;
    let k2 = k1 + 1 + hd.len() as int;
    let k3 = k2 + 4;
    let b0 = k3 + 1;
    assert(s.len() == b0 + samples.len());
    // the magic token
    assert(s[0] == 80 && s[1] == 53 && s[2] == 32);
    lemma_next_field_at(s, 0, 2);
    assert(s.subrange(0, 2) =~= seq![80u8, 53u8]);
    assert(format_of(seq![80u8, 53u8]) == Option::Some(FormatTag::GraymapBinary));
    // the width token
    assert(forall|j: int| 3 <= j < k1 ==> s[j] == wd[j - 3]);
    assert forall|j: int| 3 <= j < k1 implies !is_ws(s[j]) && s[j] != 35 by {
        lemma_digit_is_plain(wd[j - 3]);
    }
    assert(s[k1] == 32);
    lemma_next_field_at(s, 3, k1);
    assert(s.subrange(3, k1) =~= wd);
    // the height token
    assert(forall|j: int| k1 + 1 <= j < k2 ==> s[j] == hd[j - (k1 + 1)]);
    assert forall|j: int| k1 + 1 <= j < k2 implies !is_ws(s[j]) && s[j] != 35 by {
        lemma_digit_is_plain(hd[j - (k1 + 1)]);
    }
    assert(s[k2] == 32);
    lemma_next_field_at(s, k1 + 1, k2);
    assert(s.subrange(k1 + 1, k2) =~= hd);
    // the max-value token, "255"
    assert(s[k2 + 1] == 50 && s[k2 + 2] == 53 && s[k2 + 3] == 53 && s[k3] == 10);
    lemma_next_field_at(s, k2 + 1, k3);
    assert(s.subrange(k2 + 1, k3) =~= seq![50u8, 53u8, 53u8]);
    lemma_value_of_255();
    // the body: one byte per sample
    assert(s.subrange(b0, s.len() as int) =~= body);
    assert((1 * (width as int)) * (height as int) == (width as int) * (height as int))
        by (nonlinear_arith);
    assert(narrow_samples(body) =~= samples);
}

} // verus!

