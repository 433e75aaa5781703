//! Pictures as PNG.
use vstd::prelude::*;

verus! {

/// A decoded image: four bytes for each pixel, row by row.
#[derive(Debug)]
pub struct Raster {
    pub width: u32,
    pub height: u32,
    pub pixels: Vec<u8>,
}

impl Raster {
    /// There are bytes for every pixel.
    pub open spec fn whole(&self) -> bool {
        4 * (self.width as int * self.height as int) <= self.pixels@.len()
    }

    /// Whether there are bytes for every pixel.
    pub fn is_whole(&self) -> (r: bool)
        ensures
            r == self.whole(),
    {
        let (width, height) = (self.width as u128, self.height as u128);
        assert(0 <= width * height <= u32::MAX * u32::MAX) by (nonlinear_arith)
            requires
                0 <= width <= u32::MAX,
                0 <= height <= u32::MAX,
        ;
        4 * (width * height) <= self.pixels.len() as u128
    }
}

/// What the PNG encoder of the crate `image` makes of four bytes for each pixel, row by row: a file,
/// or the text of its error.
pub uninterp spec fn png_encoding(pixels: Seq<u8>, width: u32, height: u32) -> Result<
    Seq<u8>,
    Seq<char>,
>;

/// Writes a picture as PNG, by `ImageBuffer::from_raw` and `ImageBuffer::write_to` of the crate
/// `image`. The result is named, the file as well as the text of the encoder's error: both depend on
/// the pixels and on the size alone. A buffer with bytes for every pixel is one that `from_raw` takes.
#[verifier::external_body]
pub(crate) fn encode_png(raster: Raster) -> (r: Result<Vec<u8>, String>)
    requires
        raster.whole(),
    ensures
        png_encoding(raster.pixels@, raster.width, raster.height) == match r {
            Ok(bytes) => Ok::<Seq<u8>, Seq<char>>(bytes@),
            Err(error) => Err::<Seq<u8>, Seq<char>>(error@),
        },
{
    let picture = image::RgbaImage::from_raw(raster.width, raster.height, raster.pixels);
    let mut bytes = std::io::Cursor::new(Vec::new());
    match picture.expect("whole picture").write_to(&mut bytes, image::ImageFormat::Png) {
        Ok(()) => Ok(bytes.into_inner()),
        Err(error) => Err(error.to_string()),
    }
}

} // verus!
