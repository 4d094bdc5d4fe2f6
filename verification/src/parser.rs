//! The header/body state machine and the pixel decoders.
//!
//! `parse` drives the tokenizer through the fixed header sequence — magic
//! number, width, height, maximum sample value — skipping empty tokens and
//! `#`-led comment lines, dispatches the magic number to a pixel decoder,
//! and decodes the rest of the buffer as the pixel body. Its whole behaviour,
//! success and every failure, is stated by the spec function [`parse_spec`].

use vstd::prelude::*;

use crate::errors::PgmError;
use crate::format::FormatTag;
use crate::format::dispatch_magic;
use crate::format::format_of;
use crate::format::is_implemented;
use crate::image::Image;
use crate::image::ImageModel;
use crate::numbers::all_digits;
use crate::numbers::digits_value;
use crate::numbers::parse_u16;
use crate::numbers::parse_usize;
use crate::tokenizer::BytesParser;
use crate::tokenizer::after_line;
use crate::tokenizer::after_token;
use crate::tokenizer::lemma_line_end_bounds;
use crate::tokenizer::lemma_token_end_bounds;
use crate::tokenizer::lemma_token_end_le_line_end;
use crate::tokenizer::token_end;

verus! {

/// The next header field from position `i`: the first token that is neither
/// empty nor the start of a `#` comment line, paired with the cursor position
/// after its delimiter; `None` when the buffer runs out first.
pub open spec fn next_field(s: Seq<u8>, i: int) -> Option<(Seq<u8>, int)>
    decreases s.len() - i,
{
    if i < 0 || i >= s.len() {
        None
    } else {
        let e = token_end(s, i);
        let tok = s.subrange(i, e);
        proof {
            lemma_token_end_bounds(s, i);
            lemma_line_end_bounds(s, i);
        }
        if tok.len() == 0 {
            next_field(s, after_token(s, i))
        } else if tok[0] == 35 {
            next_field(s, after_line(s, i))
        } else {
            Some((tok, after_token(s, i)))
        }
    }
}

/// One sample per body byte, widened.
pub open spec fn narrow_samples(b: Seq<u8>) -> Seq<u16> {
    Seq::new(b.len(), |i: int| b[i] as u16)
}

/// One sample per byte pair, most-significant byte first.
pub open spec fn wide_samples(b: Seq<u8>) -> Seq<u16> {
    Seq::new((b.len() / 2) as nat, |i: int| (b[2 * i] * 256 + b[2 * i + 1]) as u16)
}

/// The samples an ASCII body denotes from position `i` on: each non-empty
/// whitespace-delimited token read as a decimal sample, until the buffer is
/// exhausted or a token fails to read as one — the first unparseable token
/// ends the data, it is not an error.
pub open spec fn ascii_samples(s: Seq<u8>, i: int) -> Seq<u16>
    decreases s.len() - i,
{
    if i < 0 || i >= s.len() {
        Seq::<u16>::empty()
    } else {
        let e = token_end(s, i);
        let tok = s.subrange(i, e);
        proof {
            lemma_token_end_bounds(s, i);
        }
        if tok.len() == 0 {
            ascii_samples(s, after_token(s, i))
        } else if all_digits(tok) && digits_value(tok) <= u16::MAX {
            seq![digits_value(tok) as u16] + ascii_samples(s, after_token(s, i))
        } else {
            Seq::<u16>::empty()
        }
    }
}

/// What decoding a buffer yields: the image model on success, and on which
/// buffers which failure comes. This is the decoder's whole contract;
/// [`parse`] returns exactly this.
pub open spec fn parse_spec(s: Seq<u8>) -> Result<ImageModel, PgmError> {
    parse_from(s, 0)
}

/// What decoding yields when the header is read from position `i` on:
/// the four header fields in their fixed order, then the body.
pub open spec fn parse_from(s: Seq<u8>, i: int) -> Result<ImageModel, PgmError> {
    match next_field(s, i) {
        Option::None => Err(PgmError::IncompleteHeader),
        Option::Some((magic, i1)) => match format_of(magic) {
            Option::None => Err(PgmError::UnsupportedFormat),
            Option::Some(tag) => {
                if !is_implemented(tag) {
                    Err(PgmError::NotImplemented)
                } else {
                    match next_field(s, i1) {
                        Option::None => Err(PgmError::IncompleteHeader),
                        Option::Some((wtok, i2)) => {
                            if !(all_digits(wtok) && digits_value(wtok) <= usize::MAX) {
                                Err(PgmError::MalformedNumber)
                            } else {
                                match next_field(s, i2) {
                                    Option::None => Err(PgmError::IncompleteHeader),
                                    Option::Some((htok, i3)) => {
                                        if !(all_digits(htok) && digits_value(htok)
                                            <= usize::MAX) {
                                            Err(PgmError::MalformedNumber)
                                        } else {
                                            match next_field(s, i3) {
                                                Option::None => Err(PgmError::IncompleteHeader),
                                                Option::Some((mtok, i4)) => {
                                                    if !(all_digits(mtok) && digits_value(mtok)
                                                        <= u16::MAX) {
                                                        Err(PgmError::MalformedNumber)
                                                    } else {
                                                        body_spec(
                                                            s,
                                                            i4,
                                                            tag,
                                                            digits_value(wtok),
                                                            digits_value(htok),
                                                            digits_value(mtok) as u16,
                                                        )
                                                    }
                                                },
                                            }
                                        }
                                    },
                                }
                            }
                        },
                    }
                }
            },
        },
    }
}

/// What decoding the body from position `i` yields, once the header gave
/// `tag`, `width`, `height` and `max_value`. A binary graymap body must hold
/// exactly `width * height` samples of one byte each — two when `max_value`
/// is over 255 — else it fails with `TruncatedData`; an ASCII graymap body
/// yields whatever samples it denotes.
pub open spec fn body_spec(
    s: Seq<u8>,
    i: int,
    tag: FormatTag,
    width: int,
    height: int,
    max_value: u16,
) -> Result<ImageModel, PgmError> {
    if tag == FormatTag::GraymapBinary {
        let body = s.subrange(i, s.len() as int);
        let bytes_per_sample: int = if max_value > 255 {
            2
        } else {
            1
        };
        if body.len() == bytes_per_sample * width * height {
            Ok(
                ImageModel {
                    data: if max_value > 255 {
                        wide_samples(body)
                    } else {
                        narrow_samples(body)
                    },
                    width,
                    height,
                    max_value,
                },
            )
        } else {
            Err(PgmError::TruncatedData)
        }
    } else {
        Ok(ImageModel { data: ascii_samples(s, i), width, height, max_value })
    }
}

/// A field that [`next_field`] yields is a non-empty token lying wholly
/// before the position returned with it.
pub proof fn lemma_next_field_props(s: Seq<u8>, i: int)
    requires
        0 <= i <= s.len(),
    ensures
        next_field(s, i) matches Some((tok, j)) ==> tok.len() > 0 && i < j <= s.len(),
    decreases s.len() - i,
{
    if 0 <= i < s.len() {
        let e = token_end(s, i);
        lemma_token_end_bounds(s, i);
        lemma_line_end_bounds(s, i);
        let tok = s.subrange(i, e);
        if tok.len() == 0 {
            lemma_next_field_props(s, after_token(s, i));
        } else if tok[0] == 35 {
            lemma_next_field_props(s, after_line(s, i));
        }
    }
}

/// Takes tokens until one is neither empty nor a comment and returns it, the
/// cursor left after its delimiter; `None` when the buffer runs out first.
/// The cursor only moves forward.
pub fn next_meaningful<'a>(contents: &'a [u8], p: &mut BytesParser) -> (r: Option<&'a [u8]>)
    requires
        old(p).whitespace_index <= contents@.len(),
    ensures
        old(p).whitespace_index <= final(p).whitespace_index <= contents@.len(),
        match r {
            Option::Some(tok) => next_field(contents@, old(p).whitespace_index as int)
                == Option::Some((tok@, final(p).whitespace_index as int)),
            Option::None => next_field(contents@, old(p).whitespace_index as int)
                is None,
        },
{
    loop
        invariant
            old(p).whitespace_index <= p.whitespace_index <= contents@.len(),
            next_field(contents@, p.whitespace_index as int) == next_field(
                contents@,
                old(p).whitespace_index as int,
            ),
        decreases contents@.len() - p.whitespace_index,
    {
        if p.whitespace_index == contents.len() {
            return None;
        }
        let ghost i = p.whitespace_index as int;
        let tok = p.take_line(contents);
        proof {
            lemma_token_end_bounds(contents@, i);
        }
        if tok.len() == 0 {
            // an empty token between two adjacent delimiters: next_field skips it too
        } else if tok[0] == 35 {
            p.skip_comment_line(contents);
            proof {
                lemma_line_end_bounds(contents@, i);
                lemma_token_end_le_line_end(contents@, i);
                assert(next_field(contents@, i) == next_field(contents@, after_line(contents@, i)));
            }
        } else {
            return Some(tok);
        }
    }
}

/// Decodes a binary graymap body: two bytes per sample, most-significant
/// first, when `max_value` is over 255, else one widened byte per sample.
/// Fails with `TruncatedData` unless the body is exactly
/// `width * height * bytes_per_sample` bytes.
pub fn decode_binary_graymap(
    body: &[u8],
    width: usize,
    height: usize,
    max_value: u16,
) -> (r: Result<Vec<u16>, PgmError>)
    ensures
        ({
            let bytes_per_sample: int = if max_value > 255 {
                2
            } else {
                1
            };
            match r {
                Ok(data) => {
                    &&& body@.len() == bytes_per_sample * width * height
                    &&& data@ == (if max_value > 255 {
                        wide_samples(body@)
                    } else {
                        narrow_samples(body@)
                    })
                },
                Err(e) => {
                    &&& e == PgmError::TruncatedData
                    &&& body@.len() != bytes_per_sample * width * height
                },
            }
        }),
{
    proof {
        assert((width as u128) * (height as u128) <= (u64::MAX as u128) * (u64::MAX as u128))
            by (nonlinear_arith)
            requires
                width as u128 <= u64::MAX as u128,
                height as u128 <= u64::MAX as u128,
        ;
    }
    let needed: u128 = (width as u128) * (height as u128);
    let have: u128 = body.len() as u128;
    proof {
        assert(2 * (width as int) * (height as int) == 2 * ((width as int) * (height as int)))
            by (nonlinear_arith);
    }
    if max_value > 255 {
        if !(have % 2 == 0 && have / 2 == needed) {
            return Err(PgmError::TruncatedData);
        }
        let count = body.len() / 2;
        let mut data: Vec<u16> = Vec::new();
        let mut k: usize = 0;
        while k < count
            invariant
                count == body@.len() / 2,
                2 * count <= body@.len() <= usize::MAX,
                0 <= k <= count,
                data@.len() == k,
                forall|j: int|
                    0 <= j < k ==> data@[j] == (body@[2 * j] * 256 + body@[2 * j + 1]) as u16,
            decreases count - k,
        {
            let hi = body[2 * k];
            let lo = body[2 * k + 1];
            data.push((hi as u16) * 256 + (lo as u16));
            k = k + 1;
        }
        proof {
            assert(data@ =~= wide_samples(body@));
        }
        Ok(data)
    } else {
        if !(have == needed) {
            return Err(PgmError::TruncatedData);
        }
        let mut data: Vec<u16> = Vec::new();
        let mut k: usize = 0;
        while k < body.len()
            invariant
                0 <= k <= body@.len(),
                data@.len() == k,
                forall|j: int| 0 <= j < k ==> data@[j] == body@[j] as u16,
            decreases body@.len() - k,
        {
            data.push(body[k] as u16);
            k = k + 1;
        }
        proof {
            assert(data@ =~= narrow_samples(body@));
        }
        Ok(data)
    }
}

/// Decodes an ASCII graymap body by continued tokenization from the cursor:
/// empty tokens are skipped, each other token is read as a decimal sample,
/// and the first token that fails to read as one ends the data.
pub fn decode_ascii_graymap(contents: &[u8], p: &mut BytesParser) -> (data: Vec<u16>)
    requires
        old(p).whitespace_index <= contents@.len(),
    ensures
        data@ == ascii_samples(contents@, old(p).whitespace_index as int),
{
    let mut data: Vec<u16> = Vec::new();
    loop
        invariant
            old(p).whitespace_index <= p.whitespace_index <= contents@.len(),
            data@ + ascii_samples(contents@, p.whitespace_index as int) == ascii_samples(
                contents@,
                old(p).whitespace_index as int,
            ),
        decreases contents@.len() - p.whitespace_index,
    {
        if p.whitespace_index == contents.len() {
            proof {
                assert(data@ + ascii_samples(contents@, p.whitespace_index as int) =~= data@);
            }
            return data;
        }
        let ghost i = p.whitespace_index as int;
        let tok = p.take_line(contents);
        proof {
            lemma_token_end_bounds(contents@, i);
        }
        if tok.len() == 0 {
            // an empty token between two adjacent delimiters: skipped
        } else {
            match parse_u16(tok) {
                Ok(v) => {
                    data.push(v);
                    proof {
                        assert(ascii_samples(contents@, i) == seq![v] + ascii_samples(
                            contents@,
                            after_token(contents@, i),
                        ));
                        assert(data@ + ascii_samples(contents@, p.whitespace_index as int)
                            =~= ascii_samples(contents@, old(p).whitespace_index as int));
                    }
                },
                Err(_) => {
                    proof {
                        assert(ascii_samples(contents@, i) =~= Seq::<u16>::empty());
                        assert(data@ + ascii_samples(contents@, i) =~= data@);
                    }
                    return data;
                },
            }
        }
    }
}

/// Decodes a PGM image from a raw byte buffer. The header states run
/// strictly forward — magic type, width, height, maximum value, then data —
/// one state per meaningful token, never revisited; the buffer running out
/// first fails with `IncompleteHeader`. Returns exactly what [`parse_spec`]
/// states: the decoded image for a well-formed `P2` or `P5` buffer, and the
/// matching typed failure for every other buffer.
pub fn parse(contents: &[u8]) -> (r: Result<Image, PgmError>)
    ensures
        (r matches Ok(img) ==> parse_spec(contents@) == Ok::<ImageModel, PgmError>(img@)),
        (r matches Err(e) ==> parse_spec(contents@) == Err::<ImageModel, PgmError>(e)),
{
    let mut bytes_parser = BytesParser::new();
    let magic = match next_meaningful(contents, &mut bytes_parser) {
        Some(tok) => tok,
        None => {
            return Err(PgmError::IncompleteHeader);
        },
    };
    let tag = match dispatch_magic(magic) {
        Ok(tag) => tag,
        Err(e) => {
            return Err(e);
        },
    };
    let implemented = match tag {
        FormatTag::GraymapAscii => true,
        FormatTag::GraymapBinary => true,
        _ => false,
    };
    if !implemented {
        return Err(PgmError::NotImplemented);
    }
    let ghost i1 = bytes_parser.whitespace_index as int;
    let wtok = match next_meaningful(contents, &mut bytes_parser) {
        Some(tok) => tok,
        None => {
            return Err(PgmError::IncompleteHeader);
        },
    };
    proof {
        lemma_next_field_props(contents@, i1);
    }
    let width = match parse_usize(wtok) {
        Ok(v) => v,
        Err(e) => {
            return Err(e);
        },
    };
    let ghost i2 = bytes_parser.whitespace_index as int;
    let htok = match next_meaningful(contents, &mut bytes_parser) {
        Some(tok) => tok,
        None => {
            return Err(PgmError::IncompleteHeader);
        },
    };
    proof {
        lemma_next_field_props(contents@, i2);
    }
    let height = match parse_usize(htok) {
        Ok(v) => v,
        Err(e) => {
            return Err(e);
        },
    };
    let ghost i3 = bytes_parser.whitespace_index as int;
    let mtok = match next_meaningful(contents, &mut bytes_parser) {
        Some(tok) => tok,
        None => {
            return Err(PgmError::IncompleteHeader);
        },
    };
    proof {
        lemma_next_field_props(contents@, i3);
    }
    let max_value = match parse_u16(mtok) {
        Ok(v) => v,
        Err(e) => {
            return Err(e);
        },
    };
    if let FormatTag::GraymapBinary = tag {
        let body = bytes_parser.take_rest(contents);
        match decode_binary_graymap(body, width, height, max_value) {
            Ok(data) => Ok(Image { data, width, height, max_value }),
            Err(e) => Err(e),
        }
    } else {
        let data = decode_ascii_graymap(contents, &mut bytes_parser);
        Ok(Image { data, width, height, max_value })
    }
}

} // verus!
