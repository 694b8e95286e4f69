//! The canvas as raw RGBA bytes and as a PNG image.

use vstd::prelude::*;
use crate::grid::Grid;

verus! {

#[verifier::external_type_specification]
#[verifier::external_body]
pub struct ExEncodingError(png::EncodingError);

/// The cells as bytes: four per pixel, pixels in row-major order.
pub open spec fn rgba_bytes(cells: Seq<[u8; 4]>) -> Seq<u8> {
    Seq::new(4 * cells.len(), |i: int| cells[i / 4][i % 4])
}

/// The PNG file that the `png` crate's encoder writes for an RGBA image
/// of eight bits per channel with the given size and pixel data.
pub uninterp spec fn png_rgba8(width: u32, height: u32, data: Seq<u8>) -> Seq<u8>;

/// The encoder takes rows of fewer pixels than this. It hands a whole row,
/// four bytes per pixel and one more, to a compressor that counts the
/// bytes of a run in 32 bits.
pub const MAX_PNG_WIDTH: usize = 0x4000_0000;

/// Why a canvas could not be written as an image.
pub enum ExportError {
    /// The canvas has `MAX_PNG_WIDTH` columns or more, or more pixel data
    /// than the encoder's buffers have room for.
    TooLarge,
    /// The encoder refused the image; the text is its own message.
    Encoder(String),
}

/// Runs the `png` crate's encoder (`Encoder::new`, `set_color`,
/// `set_depth`, `write_header`, `Writer::write_image_data`,
/// `Writer::finish`) into a buffer in memory.
///
/// Assumed of it: it fails for an image with no columns or no rows and for
/// pixel data that is not four bytes per pixel, and for nothing else, since
/// a buffer in memory takes every write; and what it writes depends on the
/// size and the pixel data alone.
///
/// Kept away from it are the sizes on which it would overflow: a width of
/// `MAX_PNG_WIDTH` or more, whose row the compressor cannot count; a size
/// whose byte count does not fit a `usize`; and more data than a quarter
/// of `isize::MAX` bytes, since the compressor may write half as much
/// again as it reads into a buffer that grows by doubling, and no buffer
/// holds more than `isize::MAX` bytes.
#[verifier::external_body]
fn encode_rgba8(width: u32, height: u32, data: &Vec<u8>) -> (r: Result<Vec<u8>, png::EncodingError>)
    requires
        width < MAX_PNG_WIDTH,
        4 * width * height <= usize::MAX,
        4 * data@.len() <= isize::MAX,
    ensures
        r is Ok ==> width > 0 && height > 0 && data@.len() == 4 * width * height,
        width > 0 && height > 0 && data@.len() == 4 * width * height ==> r is Ok,
        r matches Ok(bytes) ==> bytes@ == png_rgba8(width, height, data@),
{
    let mut out: Vec<u8> = Vec::new();
    let mut encoder = png::Encoder::new(&mut out, width, height);
    encoder.set_color(png::ColorType::Rgba);
    encoder.set_depth(png::BitDepth::Eight);
    let mut writer = encoder.write_header()?;
    writer.write_image_data(data)?;
    writer.finish()?;
    Ok(out)
}

/// The message of an encoder error, as its `Display` impl writes it.
/// Nothing is assumed of the text.
#[verifier::external_body]
fn encoder_message(error: &png::EncodingError) -> String {
    format!("{}", error)
}

/// What the export returns for a given outcome of the encoder: the file
/// where there is one, the encoder's refusal otherwise.
pub fn export_outcome(encoded: Result<Vec<u8>, png::EncodingError>) -> (r: Result<
    Vec<u8>,
    ExportError,
>)
    ensures
        encoded matches Ok(bytes) ==> r == Ok::<Vec<u8>, ExportError>(bytes),
        encoded is Err ==> r matches Err(ExportError::Encoder(_)),
{
    match encoded {
        Ok(bytes) => Ok(bytes),
        Err(error) => Err(ExportError::Encoder(encoder_message(&error))),
    }
}

/// A length as a 32-bit number: its low 32 bits, as a cast would give.
fn low_32_bits(n: usize) -> (r: u32)
    ensures
        r <= n,
        n <= u32::MAX ==> r == n,
{
    (n as u64 % 0x1_0000_0000) as u32
}

impl Grid {
    /// The pixels as bytes, four per pixel in row-major order: what a raster
    /// image of the canvas holds. `None` where that many bytes are more than
    /// one allocation holds, `isize::MAX`.
    pub fn to_rgba_bytes(&self) -> (r: Option<Vec<u8>>)
        ensures
            match r {
                Some(bytes) => bytes@ == rgba_bytes(self.cells@) && 4 * self.cells@.len()
                    <= isize::MAX,
                None => 4 * self.cells@.len() > isize::MAX,
            },
    {
        let len = self.cells.len();
        if len > isize::MAX as usize / 4 {
            return None;
        }
        let mut bytes: Vec<u8> = Vec::with_capacity(4 * len);
        let mut i: usize = 0;
        while i < len
            invariant
                i <= len,
                len == self.cells@.len(),
                4 * len <= isize::MAX,
                bytes@.len() == 4 * i,
                forall|k: int| 0 <= k < 4 * i ==> bytes@[k] == self.cells@[k / 4][k % 4],
            decreases len - i,
        {
            let px = self.cells[i];
            bytes.push(px[0]);
            bytes.push(px[1]);
            bytes.push(px[2]);
            bytes.push(px[3]);
            i += 1;
        }
        assert(bytes@ =~= rgba_bytes(self.cells@));
        Some(bytes)
    }

    /// The canvas as a PNG file: RGBA, eight bits per channel, not
    /// interlaced.
    ///
    /// A file comes back for every canvas that has pixels, fewer than
    /// `MAX_PNG_WIDTH` columns, a height that fits 32 bits, and pixel data
    /// of no more than a quarter of `isize::MAX` bytes, which is four bytes
    /// for each cell; for no other. A canvas beyond the width or the byte
    /// limit is `TooLarge` and never reaches the encoder. The height is
    /// handed to the encoder cut to its low 32 bits, and the encoder
    /// refuses what comes of a height that does not fit, as it refuses a
    /// canvas without pixels.
    pub fn to_png(&self) -> (r: Result<Vec<u8>, ExportError>)
        requires
            self.wf(),
        ensures
            r is Ok <==> 0 < self.width < MAX_PNG_WIDTH && 0 < self.height <= u32::MAX && 16
                * self.cells@.len() <= isize::MAX,
            match r {
                Ok(bytes) => bytes@ == png_rgba8(
                    self.width as u32,
                    self.height as u32,
                    rgba_bytes(self.cells@),
                ),
                Err(ExportError::TooLarge) => self.width >= MAX_PNG_WIDTH || 16
                    * self.cells@.len() > isize::MAX,
                Err(ExportError::Encoder(_)) => self.width < MAX_PNG_WIDTH && 16
                    * self.cells@.len() <= isize::MAX,
            },
    {
        if self.width >= MAX_PNG_WIDTH || self.cells.len() > isize::MAX as usize / 16 {
            return Err(ExportError::TooLarge);
        }
        let data = match self.to_rgba_bytes() {
            Some(data) => data,
            None => {
                return Err(ExportError::TooLarge);
            },
        };
        let width = low_32_bits(self.width);
        let height = low_32_bits(self.height);
        proof {
            lemma_cut_sides(self.width as nat, self.height as nat, width as nat, height as nat);
            assert(data@.len() == data.len());
            assert(data@.len() == 4 * (self.width * self.height));
            assert(4 * (width * height) == 4 * width * height) by (nonlinear_arith);
        }
        export_outcome(encode_rgba8(width, height, &data))
    }
}

/// Sides cut down to fewer bits span no more cells than the full sides,
/// and as many only if nothing was cut or there are no cells at all.
proof fn lemma_cut_sides(width: nat, height: nat, cut_width: nat, cut_height: nat)
    requires
        cut_width <= width,
        cut_height <= height,
    ensures
        cut_width * cut_height <= width * height,
        cut_width > 0 && cut_height > 0 && cut_width * cut_height == width * height ==> cut_width
            == width && cut_height == height,
{
    assert(cut_width * cut_height <= width * height) by (nonlinear_arith)
        requires
            cut_width <= width,
            cut_height <= height,
    ;
    if cut_width > 0 && cut_height > 0 && cut_width * cut_height == width * height {
        if cut_width < width {
            assert(cut_width * cut_height < width * height) by (nonlinear_arith)
                requires
                    cut_width < width,
                    0 < cut_height <= height,
            ;
        }
        if cut_height < height {
            assert(cut_width * cut_height < width * height) by (nonlinear_arith)
                requires
                    0 < cut_width <= width,
                    cut_height < height,
            ;
        }
    }
}

} // verus!
