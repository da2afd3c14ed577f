//! Pictures, whose image is kept in the document or read from a file.

use vstd::prelude::*;

verus! {

/// Where a picture's image comes from.
#[derive(Debug, Default)]
pub struct ImageAttr {
    /// The ID of the binary data item that holds the image (counted from 1).
    pub bin_data_id: u16,
    /// The path of the image file, for an image kept outside the document.
    pub external_path: Option<String>,
}

/// A picture control.
#[derive(Debug, Default)]
pub struct Picture {
    pub image_attr: ImageAttr,
}

} // verus!
