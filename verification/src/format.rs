//! Magic-number dispatch.
//!
//! The first header token names one of seven netpbm variants. The dispatcher
//! maps it to a [`FormatTag`], the extension point that selects a pixel
//! decoder; an unrecognized token fails with `UnsupportedFormat`.

use vstd::prelude::*;

use crate::errors::PgmError;

verus! {

/// The seven recognized netpbm variants: ASCII and binary bitmap (`P1`/`P4`),
/// graymap (`P2`/`P5`) and pixmap (`P3`/`P6`), plus the extended format
/// (`P7`). Only the graymaps have a pixel decoder.
#[derive(Clone, Copy, Debug, PartialEq, Eq, Structural)]
pub enum FormatTag {
    BitmapAscii,
    GraymapAscii,
    PixmapAscii,
    BitmapBinary,
    GraymapBinary,
    PixmapBinary,
    Extended,
}

/// The variant a magic-number token names, if any. The seven magic numbers
/// are `P1` through `P7`: byte 80 then one of bytes 49 through 55.
pub open spec fn format_of(t: Seq<u8>) -> Option<FormatTag> {
    if t.len() != 2 || t[0] != 80 {
        None
    } else if t[1] == 49 {
        Some(FormatTag::BitmapAscii)
    } else if t[1] == 50 {
        Some(FormatTag::GraymapAscii)
    } else if t[1] == 51 {
        Some(FormatTag::PixmapAscii)
    } else if t[1] == 52 {
        Some(FormatTag::BitmapBinary)
    } else if t[1] == 53 {
        Some(FormatTag::GraymapBinary)
    } else if t[1] == 54 {
        Some(FormatTag::PixmapBinary)
    } else if t[1] == 55 {
        Some(FormatTag::Extended)
    } else {
        None
    }
}

/// Whether this library decodes bodies of the variant: only the two graymaps.
pub open spec fn is_implemented(tag: FormatTag) -> bool {
    tag == FormatTag::GraymapAscii || tag == FormatTag::GraymapBinary
}

/// Maps a magic-number token to its [`FormatTag`]; a token that is none of
/// the seven fails with `UnsupportedFormat`.
pub fn dispatch_magic(token: &[u8]) -> (r: Result<FormatTag, PgmError>)
    ensures
        match r {
            Ok(tag) => format_of(token@) == Some(tag),
            Err(e) => e == PgmError::UnsupportedFormat && format_of(token@) is None,
        },
{
    if token.len() != 2 || token[0] != 80 {
        return Err(PgmError::UnsupportedFormat);
    }
    let second = token[1];
    if second == 49 {
        Ok(FormatTag::BitmapAscii)
    } else if second == 50 {
        Ok(FormatTag::GraymapAscii)
    } else if second == 51 {
        Ok(FormatTag::PixmapAscii)
    } else if second == 52 {
        Ok(FormatTag::BitmapBinary)
    } else if second == 53 {
        Ok(FormatTag::GraymapBinary)
    } else if second == 54 {
        Ok(FormatTag::PixmapBinary)
    } else if second == 55 {
        Ok(FormatTag::Extended)
    } else {
        Err(PgmError::UnsupportedFormat)
    }
}

} // verus!
