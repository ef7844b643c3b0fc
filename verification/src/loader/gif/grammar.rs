//! The layout of a GIF stream, as far as its metadata goes: what each part
//! gives on a stream of bytes, and where it leaves the cursor.

use vstd::prelude::*;

use crate::errors::{unknown_block_text, unknown_extension_text, ImageErrorView};
use crate::stream::{u16_le, Outcome, Stream};
use crate::types::{Dimensions, ImageMeta};

verus! {

/// The tag of an extension block.
pub const EXTENSION: u8 = 0x21;

/// The tag of an image descriptor, which opens one frame.
pub const IMAGE_DESCRIPTOR: u8 = 0x2c;

/// The tag that ends the stream.
pub const TRAILER: u8 = 0x3b;

/// The signature of the format's first version, `GIF87a`.
pub open spec fn gif87a() -> Seq<u8> {
    seq![0x47u8, 0x49u8, 0x46u8, 0x38u8, 0x37u8, 0x61u8]
}

/// The signature of the format's second version, `GIF89a`.
pub open spec fn gif89a() -> Seq<u8> {
    seq![0x47u8, 0x49u8, 0x46u8, 0x38u8, 0x39u8, 0x61u8]
}

/// Whether a packed-flags byte announces a colour table: its high bit.
pub open spec fn has_color_table(flags: u8) -> bool {
    flags & 0x80 != 0
}

/// The number of entries of the colour table that a packed-flags byte
/// describes: two to the power of one more than its low three bits.
pub open spec fn color_table_entries(flags: u8) -> int {
    (2i32 << (flags & 0x07)) as int
}

/// The length in bytes of the colour table that follows a packed-flags byte:
/// three bytes for each entry, and nothing where the byte announces no table.
pub open spec fn color_table_bytes(flags: u8) -> int {
    if has_color_table(flags) {
        3 * color_table_entries(flags)
    } else {
        0
    }
}

/// Whether an extension label is one of the four that the format defines:
/// plain text, graphic control, comment, application.
pub open spec fn is_extension_label(label: u8) -> bool {
    label == 0x01 || label == 0xf9 || label == 0xfe || label == 0xff
}

/// The signature: six bytes that spell one of the two versions.
pub open spec fn signature(s: Stream) -> Outcome<()> {
    if s.available() < 6 {
        s.short_read()
    } else {
        if s.ahead(6) == gif87a() || s.ahead(6) == gif89a() {
            Outcome::ok((), s.position + 6)
        } else {
            Outcome::fail(ImageErrorView::InvalidSignature, s.position + 6)
        }
    }
}

/// A packed-flags byte, read for the length of the colour table it describes.
pub open spec fn table_bits(s: Stream) -> Outcome<int> {
    let flags = s.read_u8();
    match flags.result {
        Err(error) => Outcome::fail(error, flags.position),
        Ok(bits) => Outcome::ok(color_table_bytes(bits), flags.position),
    }
}

/// The screen descriptor: the width and the height, two bytes each and low
/// byte first, then a packed-flags byte. One seek passes over the global
/// colour table that the flags describe and over two bytes more, the
/// background colour index and the pixel aspect ratio.
pub open spec fn header(s: Stream) -> Outcome<Dimensions> {
    if s.available() < 5 {
        s.short_read()
    } else {
        let dimensions = Dimensions {
            width: u16_le(s.byte(0), s.byte(1)) as u32,
            height: u16_le(s.byte(2), s.byte(3)) as u32,
        };
        let skip = s.at(s.position + 5).seek_relative(color_table_bytes(s.byte(4)) + 2);
        match skip.result {
            Err(error) => Outcome::fail(error, skip.position),
            Ok(()) => Outcome::ok(dimensions, skip.position),
        }
    }
}

/// A sequence of sub-blocks: each a length byte and that many bytes of
/// payload, which a seek passes over; a length of zero ends the sequence.
pub open spec fn sub_blocks(s: Stream) -> Outcome<()>
    decreases s.available(),
{
    let size = s.read_u8();
    match size.result {
        Err(error) => Outcome::fail(error, size.position),
        Ok(length) => if length == 0 {
            Outcome::ok((), size.position)
        } else {
            let skip = s.at(size.position).seek_relative(length as int);
            match skip.result {
                Err(error) => skip,
                Ok(()) => sub_blocks(s.at(skip.position)),
            }
        },
    }
}

/// An extension block after its tag: a label, which must be one of the four
/// defined ones, and a sequence of sub-blocks.
pub open spec fn extension(s: Stream) -> Outcome<()> {
    let label = s.read_u8();
    match label.result {
        Err(error) => Outcome::fail(error, label.position),
        Ok(label_byte) => if is_extension_label(label_byte) {
            sub_blocks(s.at(label.position))
        } else {
            Outcome::fail(
                ImageErrorView::CorruptImage(unknown_extension_text(label_byte)),
                label.position,
            )
        },
    }
}

/// An image descriptor after its tag. A seek passes over eight bytes: left,
/// top, width and height of the frame. Then comes a packed-flags byte; a
/// second seek passes over the local colour table it describes and over the
/// byte that holds the LZW minimum code size. The image data follows as a
/// sequence of sub-blocks.
pub open spec fn image_data(s: Stream) -> Outcome<()> {
    let frame = s.seek_relative(8);
    match frame.result {
        Err(error) => frame,
        Ok(()) => {
            let table = table_bits(s.at(frame.position));
            match table.result {
                Err(error) => Outcome::fail(error, table.position),
                Ok(table_bytes) => {
                    let skip = s.at(table.position).seek_relative(table_bytes + 1);
                    match skip.result {
                        Err(error) => skip,
                        Ok(()) => sub_blocks(s.at(skip.position)),
                    }
                },
            }
        },
    }
}

/// How a walk over the blocks ends, and how many image descriptors it has
/// passed by then.
pub struct Walk {
    pub frames: nat,
    pub outcome: Outcome<()>,
}

/// The blocks up to the trailer, with `frames` image descriptors seen before.
/// Each block starts with its tag. An extension changes nothing, an image
/// descriptor adds a frame, the trailer ends the walk, and any other tag is
/// an error that names it.
pub open spec fn blocks(s: Stream, frames: nat) -> Walk
    decreases s.available(),
    via blocks_decreases
{
    let tag = s.read_u8();
    match tag.result {
        Err(error) => Walk { frames, outcome: Outcome::fail(error, tag.position) },
        Ok(kind) => if kind == EXTENSION {
            let block = extension(s.at(tag.position));
            if block.result is Ok {
                blocks(s.at(block.position), frames)
            } else {
                Walk { frames, outcome: block }
            }
        } else if kind == IMAGE_DESCRIPTOR {
            let block = image_data(s.at(tag.position));
            if block.result is Ok {
                blocks(s.at(block.position), frames + 1)
            } else {
                Walk { frames, outcome: block }
            }
        } else if kind == TRAILER {
            Walk { frames, outcome: Outcome::ok((), tag.position) }
        } else {
            Walk {
                frames,
                outcome: Outcome::fail(
                    ImageErrorView::CorruptImage(unknown_block_text(kind)),
                    tag.position,
                ),
            }
        },
    }
}

#[via_fn]
proof fn blocks_decreases(s: Stream, frames: nat) {
    let tag = s.read_u8();
    if tag.result is Ok {
        lemma_extension_forward(s.at(tag.position));
        lemma_image_data_forward(s.at(tag.position));
    }
}

/// A whole stream: the signature, the screen descriptor, and the blocks up to
/// the trailer. The metadata is the screen size and the number of frames.
pub open spec fn metadata(s: Stream) -> Outcome<ImageMeta> {
    let magic = signature(s);
    match magic.result {
        Err(error) => Outcome::fail(error, magic.position),
        Ok(()) => {
            let screen = header(s.at(magic.position));
            match screen.result {
                Err(error) => Outcome::fail(error, screen.position),
                Ok(dimensions) => {
                    let walk = blocks(s.at(screen.position), 0);
                    match walk.outcome.result {
                        Err(error) => Outcome::fail(error, walk.outcome.position),
                        Ok(()) => Outcome::ok(
                            ImageMeta::gif(dimensions, walk.frames),
                            walk.outcome.position,
                        ),
                    }
                },
            }
        },
    }
}

/// A colour table is at most 256 entries of three bytes.
pub proof fn lemma_color_table_bytes_range(flags: u8)
    ensures
        0 <= color_table_bytes(flags) <= 768,
{
    assert(0 < 2i32 << (flags & 0x07) <= 256) by (bit_vector);
}

/// A sequence of sub-blocks never moves the cursor back.
pub proof fn lemma_sub_blocks_forward(s: Stream)
    ensures
        s.position <= sub_blocks(s).position,
    decreases s.available(),
{
    let size = s.read_u8();
    match size.result {
        Ok(length) if length != 0 => {
            let skip = s.at(size.position).seek_relative(length as int);
            if skip.result is Ok {
                lemma_sub_blocks_forward(s.at(skip.position));
            }
        },
        _ => {},
    }
}

/// An extension block never moves the cursor back.
pub proof fn lemma_extension_forward(s: Stream)
    ensures
        s.position <= extension(s).position,
{
    let label = s.read_u8();
    if label.result is Ok {
        lemma_sub_blocks_forward(s.at(label.position));
    }
}

/// An image descriptor never moves the cursor back.
pub proof fn lemma_image_data_forward(s: Stream)
    ensures
        s.position <= image_data(s).position,
{
    let frame = s.seek_relative(8);
    if frame.result is Ok {
        let table = table_bits(s.at(frame.position));
        match table.result {
            Ok(table_bytes) => {
                lemma_color_table_bytes_range(s.at(frame.position).byte(0));
                let skip = s.at(table.position).seek_relative(table_bytes + 1);
                if skip.result is Ok {
                    lemma_sub_blocks_forward(s.at(skip.position));
                }
            },
            Err(_) => {},
        }
    }
}

} // verus!
