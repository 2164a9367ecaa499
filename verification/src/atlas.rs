use vstd::prelude::*;

verus! {

/// Where an image lies in the atlas texture.
#[derive(Debug, Clone, Copy)]
pub struct ImageInfo {
    pub x: u64,
    pub y: u64,
    pub width: u64,
    pub height: u64,
}

/// A texture atlas: the size of its texture, the images packed into it row by row, the
/// height of the tallest image of the current row, and how many images it holds.
pub struct Atlas {
    pub texture_width: u32,
    pub texture_height: u32,
    pub images: Vec<Vec<ImageInfo>>,
    pub row_max_height: u32,
    pub image_quantity: u8,
}

impl Atlas {
    /// An empty atlas over an empty texture.
    pub fn new() -> (a: Self)
        ensures
            a.texture_width == 0,
            a.texture_height == 0,
            a.images@.len() == 0,
            a.row_max_height == 0,
            a.image_quantity == 0,
    {
        Atlas {
            texture_width: 0,
            texture_height: 0,
            images: Vec::new(),
            row_max_height: 0,
            image_quantity: 0,
        }
    }
}

} // verus!
