//! The decoded image value object.

use vstd::prelude::*;

verus! {

/// A decoded grayscale image: row-major samples and the header metadata.
/// Created once by the decoder and owned by the caller thereafter. For a
/// fully decoded binary graymap, `data.len() == width * height` and
/// `max_value >= 1`; the decoder does not enforce either for ASCII bodies.
#[derive(Clone, Debug, PartialEq, Eq)]
pub struct Image {
    pub data: Vec<u16>,
    pub width: usize,
    pub height: usize,
    pub max_value: u16,
}

/// The mathematical view of an [`Image`]: the sample sequence and the
/// header fields as unbounded integers.
#[verifier::ext_equal]
pub struct ImageModel {
    pub data: Seq<u16>,
    pub width: int,
    pub height: int,
    pub max_value: u16,
}

impl View for Image {
    type V = ImageModel;

    open spec fn view(&self) -> ImageModel {
        ImageModel {
            data: self.data@,
            width: self.width as int,
            height: self.height as int,
            max_value: self.max_value,
        }
    }
}

} // verus!
