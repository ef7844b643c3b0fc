//! Reads the metadata of a GIF: the signature, the screen descriptor, and
//! then the blocks up to the trailer, of which only the lengths are looked at.

pub mod grammar;
pub mod laws;

use vstd::prelude::*;

use crate::errors::{ImageError, ImageErrorView, ImageResult, ImageResultU};
use crate::stream::{reported, ByteCursor};
use crate::types::{Dimensions, Format, ImageMeta};

verus! {

/// The walk over the blocks that follow the screen descriptor: it counts the
/// image descriptors it passes.
pub struct BlockReader {
    pub frames: usize,
}

impl Default for BlockReader {
    fn default() -> (reader: BlockReader)
        ensures
            reader.frames == 0,
    {
        BlockReader { frames: 0 }
    }
}

const GIF87A: [u8; 6] = [0x47, 0x49, 0x46, 0x38, 0x37, 0x61];

const GIF89A: [u8; 6] = [0x47, 0x49, 0x46, 0x38, 0x39, 0x61];

/// Whether two slices hold the same bytes.
fn same_bytes(left: &[u8], right: &[u8]) -> (same: bool)
    ensures
        same == (left@ == right@),
{
    if left.len() != right.len() {
        return false;
    }
    let mut index: usize = 0;
    while index < left.len()
        invariant
            left@.len() == right@.len(),
            index <= left@.len(),
            left@.take(index as int) == right@.take(index as int),
        decreases left@.len() - index,
    {
        if left[index] != right[index] {
            return false;
        }
        assert(left@.take(index + 1) =~= left@.take(index as int).push(left@[index as int]));
        assert(right@.take(index + 1) =~= right@.take(index as int).push(right@[index as int]));
        index += 1;
    }
    assert(left@.take(index as int) =~= left@);
    assert(right@.take(index as int) =~= right@);
    true
}

/// The length in bytes of the colour table that the packed-flags byte `bits`
/// describes.
pub fn table_bytes(bits: u8) -> (skip: i64)
    ensures
        skip == grammar::color_table_bytes(bits),
        0 <= skip <= 768,
{
    assert(bits & 0b0000_0111 < 8) by (bit_vector);
    assert(0 < 2i32 << (bits & 0b0000_0111) <= 256) by (bit_vector);
    let has_table = (bits & 0b1000_0000) > 0;
    let table_size: i32 = 2 << (bits & 0b0000_0111);
    if has_table {
        i64::from(table_size) * 3
    } else {
        0
    }
}

/// Reads the metadata of the GIF that starts at the cursor: the size of its
/// screen, and the number of its frames where there is more than one. The
/// cursor is left behind the trailer, or where the read failed.
pub fn load(image: &mut ByteCursor) -> (result: ImageResult<ImageMeta>)
    ensures
        final(image)@ == old(image)@.at(grammar::metadata(old(image)@).position),
        reported(result) == grammar::metadata(old(image)@).result,
{
    read_signature(image)?;
    let dimensions = read_header(image)?;

    let mut reader = BlockReader::default();
    proof {
        image.lemma_view_bounds();
    }
    reader.read(image)?;

    Ok(
        ImageMeta {
            animation_frames: if 1 < reader.frames {
                Some(reader.frames)
            } else {
                None
            },
            dimensions,
            format: Format::Gif,
        },
    )
}

/// Reads the six bytes of the signature and accepts the two versions of the
/// format.
pub fn read_signature(image: &mut ByteCursor) -> (result: ImageResultU)
    ensures
        final(image)@ == old(image)@.at(grammar::signature(old(image)@).position),
        reported(result) == grammar::signature(old(image)@).result,
{
    let signature = image.read_exact(6)?;
    proof {
        assert(GIF87A@ =~= grammar::gif87a());
        assert(GIF89A@ =~= grammar::gif89a());
    }
    if same_bytes(signature, &GIF87A) || same_bytes(signature, &GIF89A) {
        Ok(())
    } else {
        Err(ImageError::InvalidSignature)
    }
}

/// Reads the size of the screen and passes over the rest of the screen
/// descriptor and the global colour table.
pub fn read_header(image: &mut ByteCursor) -> (result: ImageResult<Dimensions>)
    ensures
        final(image)@ == old(image)@.at(grammar::header(old(image)@).position),
        reported(result) == grammar::header(old(image)@).result,
{
    let width = u32::from(image.read_u16_le()?);
    let height = u32::from(image.read_u16_le()?);

    let table_bytes = read_table_bits(image)?;

    // 1 Background color index
    // 1 Aspect Ratio
    image.seek_relative(table_bytes + 2)?;

    Ok(Dimensions { width, height })
}

/// Passes over a sequence of sub-blocks, up to and with the empty one that
/// ends it.
fn skip_sub_blocks(image: &mut ByteCursor) -> (result: ImageResultU)
    ensures
        final(image)@ == old(image)@.at(grammar::sub_blocks(old(image)@).position),
        reported(result) == grammar::sub_blocks(old(image)@).result,
{
    loop
        invariant
            image@.bytes == old(image)@.bytes,
            grammar::sub_blocks(image@) == grammar::sub_blocks(old(image)@),
        decreases image@.available(),
    {
        let size = image.read_u8()?;
        if size == 0 {
            return Ok(());
        }
        image.seek_relative(size as i64)?;
    }
}

impl BlockReader {
    /// Walks over the blocks up to the trailer and counts the image
    /// descriptors among them. The count must have room for one frame to each
    /// byte that is left.
    pub fn read(&mut self, image: &mut ByteCursor) -> (result: ImageResultU)
        requires
            old(self).frames + old(image)@.available() <= usize::MAX,
        ensures
            final(image)@ == old(image)@.at(
                grammar::blocks(old(image)@, old(self).frames as nat).outcome.position,
            ),
            reported(result) == grammar::blocks(old(image)@, old(self).frames as nat).outcome.result,
            final(self).frames == grammar::blocks(old(image)@, old(self).frames as nat).frames,
    {
        loop
            invariant
                image@.bytes == old(image)@.bytes,
                grammar::blocks(image@, self.frames as nat) == grammar::blocks(
                    old(image)@,
                    old(self).frames as nat,
                ),
                self.frames + image@.available() <= usize::MAX,
            decreases image@.available(),
        {
            let b = image.read_u8()?;
            proof {
                grammar::lemma_extension_forward(image@);
                grammar::lemma_image_data_forward(image@);
            }
            match b {
                0x21 => self.read_extension(image)?,
                0x2c => self.read_image_data(image)?,
                0x3b => return Ok(()),
                x => return Err(ImageError::unknown_block(x)),
            };
        }
    }

    /// Passes over an extension block, of which the tag has been read.
    pub fn read_extension(&mut self, image: &mut ByteCursor) -> (result: ImageResultU)
        ensures
            final(image)@ == old(image)@.at(grammar::extension(old(image)@).position),
            reported(result) == grammar::extension(old(image)@).result,
            final(self).frames == old(self).frames,
    {
        match image.read_u8()? {
            0x01 | 0xf9 | 0xfe | 0xff => (),
            x => return Err(ImageError::unknown_extension(x)),
        };
        skip_sub_blocks(image)
    }

    /// Passes over an image descriptor, of which the tag has been read, with
    /// its colour table and its data, and counts one frame.
    pub fn read_image_data(&mut self, image: &mut ByteCursor) -> (result: ImageResultU)
        requires
            old(self).frames + old(image)@.available() <= usize::MAX,
        ensures
            final(image)@ == old(image)@.at(grammar::image_data(old(image)@).position),
            reported(result) == grammar::image_data(old(image)@).result,
            final(self).frames == if result is Ok {
                old(self).frames + 1
            } else {
                old(self).frames as int
            },
    {
        // 2 Left
        // 2 Top
        // 2 Width
        // 2 Height
        image.seek_relative(8)?;

        let table_bytes = read_table_bits(image)?;
        image.seek_relative(table_bytes + 1)?;  // `+ 1` means LZW minimum code size

        skip_sub_blocks(image)?;

        self.frames += 1;
        Ok(())
    }
}

/// Reads a packed-flags byte and returns the bytes to skip for the colour
/// table that it describes.
pub fn read_table_bits(image: &mut ByteCursor) -> (result: ImageResult<i64>)
    ensures
        final(image)@ == old(image)@.at(grammar::table_bits(old(image)@).position),
        match result {
            Ok(skip) => grammar::table_bits(old(image)@).result == Ok::<int, ImageErrorView>(
                skip as int,
            ),
            Err(error) => grammar::table_bits(old(image)@).result == Err::<int, ImageErrorView>(
                error@,
            ),
        },
        result matches Ok(skip) ==> 0 <= skip <= 768,
{
    let bits = image.read_u8()?;
    Ok(table_bytes(bits))
}

} // verus!
