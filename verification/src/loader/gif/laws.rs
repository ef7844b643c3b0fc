//! What holds of every GIF stream, proved from the grammar.

use vstd::arithmetic::power2::{lemma2_to64, pow2};
use vstd::prelude::*;

use crate::errors::{unknown_block_text, unknown_extension_text, ImageErrorView, IoFailure};
use crate::loader::gif::grammar::{
    blocks, color_table_bytes, color_table_entries, extension, gif87a, gif89a, has_color_table,
    header, image_data, is_extension_label, lemma_extension_forward, lemma_image_data_forward,
    lemma_sub_blocks_forward, metadata, signature, sub_blocks, Walk, EXTENSION, IMAGE_DESCRIPTOR,
    TRAILER,
};
use crate::stream::{Outcome, Stream};
use crate::types::{Dimensions, ImageMeta};

verus! {

/// The two signatures are the ASCII texts `GIF87a` and `GIF89a`.
pub proof fn lemma_signatures_spell_versions()
    ensures
        gif87a() == "GIF87a"@.map_values(|c: char| c as u8),
        gif89a() == "GIF89a"@.map_values(|c: char| c as u8),
{
    reveal_strlit("GIF87a");
    reveal_strlit("GIF89a");
    assert(gif87a() =~= "GIF87a"@.map_values(|c: char| c as u8));
    assert(gif89a() =~= "GIF89a"@.map_values(|c: char| c as u8));
}

/// Where six bytes are left, the signature takes exactly those six, whatever
/// they are; it is accepted if and only if they spell one of the two versions,
/// and refused as an invalid signature otherwise.
pub proof fn lemma_signature_decides(s: Stream)
    requires
        6 <= s.available(),
    ensures
        signature(s).position == s.position + 6,
        signature(s).result is Ok <==> s.ahead(6) == gif87a() || s.ahead(6) == gif89a(),
        signature(s).result is Err ==> signature(s).result == Err::<(), ImageErrorView>(
            ImageErrorView::InvalidSignature,
        ),
{
}

/// The packed-flags byte announces a table exactly when it is 128 or more, and
/// the table then has two to the power of one more than the byte's remainder
/// by eight entries.
pub proof fn lemma_color_table_entries_power(flags: u8)
    ensures
        has_color_table(flags) <==> flags >= 128,
        color_table_entries(flags) == pow2((flags % 8 + 1) as nat),
{
    lemma2_to64();
    assert((flags & 0x80 != 0) <==> flags >= 128) by (bit_vector);
    assert(flags & 0x07 == flags % 8) by (bit_vector);
    let low = flags & 0x07;
    assert(low == 0 ==> 2i32 << low == 2) by (bit_vector);
    assert(low == 1 ==> 2i32 << low == 4) by (bit_vector);
    assert(low == 2 ==> 2i32 << low == 8) by (bit_vector);
    assert(low == 3 ==> 2i32 << low == 16) by (bit_vector);
    assert(low == 4 ==> 2i32 << low == 32) by (bit_vector);
    assert(low == 5 ==> 2i32 << low == 64) by (bit_vector);
    assert(low == 6 ==> 2i32 << low == 128) by (bit_vector);
    assert(low == 7 ==> 2i32 << low == 256) by (bit_vector);
}

/// The length of a colour table is never negative and always a multiple of
/// three.
pub proof fn lemma_color_table_bytes_multiple_of_three(flags: u8)
    ensures
        0 <= color_table_bytes(flags),
        color_table_bytes(flags) % 3 == 0,
{
    assert(0 < 2i32 << (flags & 0x07) <= 256) by (bit_vector);
}

/// Among the bytes that announce a table, a larger value of the low three bits
/// never gives a shorter table.
pub proof fn lemma_color_table_bytes_monotonic(small: u8, large: u8)
    requires
        has_color_table(small),
        has_color_table(large),
        small & 0x07 <= large & 0x07,
    ensures
        color_table_bytes(small) <= color_table_bytes(large),
{
    assert(small & 0x07 <= large & 0x07 ==> 2i32 << (small & 0x07) <= 2i32 << (large & 0x07))
        by (bit_vector);
}

/// Where the flags byte is there and the seek stays in range, the screen
/// descriptor gives the two sizes that lead it, and the cursor stops behind
/// the five bytes read, the global colour table and two bytes more.
pub proof fn lemma_header_layout(s: Stream)
    requires
        5 <= s.available(),
        s.position + 7 + color_table_bytes(s.byte(4)) <= u64::MAX,
    ensures
        header(s) == Outcome::ok(
            Dimensions {
                width: (s.byte(0) + 256 * s.byte(1)) as u32,
                height: (s.byte(2) + 256 * s.byte(3)) as u32,
            },
            (s.position + 5 + color_table_bytes(s.byte(4)) + 2) as nat,
        ),
{
    lemma_color_table_bytes_multiple_of_three(s.byte(4));
}

/// Where the flags byte is there and the seeks stay in range, an image
/// descriptor is eight bytes, the flags byte, the local colour table, one
/// byte more whether or not there is a table, and then the sub-blocks.
pub proof fn lemma_image_data_layout(s: Stream)
    requires
        9 <= s.available(),
        s.position + 9 + color_table_bytes(s.byte(8)) + 1 <= u64::MAX,
    ensures
        image_data(s) == sub_blocks(
            s.at((s.position + 8 + 1 + color_table_bytes(s.byte(8)) + 1) as nat),
        ),
        !has_color_table(s.byte(8)) ==> image_data(s) == sub_blocks(s.at(s.position + 10)),
{
    lemma_color_table_bytes_multiple_of_three(s.byte(8));
    assert(s.at(s.position + 8).byte(0) == s.byte(8));
}

/// A walk over the blocks never moves the cursor back.
pub proof fn lemma_blocks_forward(s: Stream, frames: nat)
    ensures
        s.position <= blocks(s, frames).outcome.position,
    decreases s.available(),
{
    let tag = s.read_u8();
    if tag.result is Ok {
        let body = s.at(tag.position);
        lemma_extension_forward(body);
        lemma_image_data_forward(body);
        let kind = s.byte(0);
        if kind == EXTENSION && extension(body).result is Ok {
            lemma_blocks_forward(s.at(extension(body).position), frames);
        } else if kind == IMAGE_DESCRIPTOR && image_data(body).result is Ok {
            lemma_blocks_forward(s.at(image_data(body).position), frames + 1);
        }
    }
}

/// No part of a read moves the cursor back: it only ever goes forward.
pub proof fn lemma_cursor_goes_forward(s: Stream)
    ensures
        s.position <= signature(s).position,
        s.position <= header(s).position,
        s.position <= sub_blocks(s).position,
        s.position <= extension(s).position,
        s.position <= image_data(s).position,
        forall|frames: nat| s.position <= #[trigger] blocks(s, frames).outcome.position,
        s.position <= metadata(s).position,
{
    lemma_sub_blocks_forward(s);
    lemma_extension_forward(s);
    lemma_image_data_forward(s);
    assert forall|frames: nat| s.position <= #[trigger] blocks(s, frames).outcome.position by {
        lemma_blocks_forward(s, frames);
    }
    if 5 <= s.available() {
        lemma_color_table_bytes_multiple_of_three(s.byte(4));
    }
    let magic = signature(s);
    if magic.result is Ok {
        let screen = header(s.at(magic.position));
        if 5 <= s.at(magic.position).available() {
            lemma_color_table_bytes_multiple_of_three(s.at(magic.position).byte(4));
        }
        if screen.result is Ok {
            lemma_blocks_forward(s.at(screen.position), 0);
        }
    }
}

/// The count a walk starts from changes nothing but the count it ends with:
/// the walk adds to it the image descriptors that it passes.
pub proof fn lemma_frames_add_up(s: Stream, frames: nat)
    ensures
        blocks(s, frames).outcome == blocks(s, 0).outcome,
        blocks(s, frames).frames == frames + blocks(s, 0).frames,
    decreases s.available(),
{
    let tag = s.read_u8();
    if tag.result is Ok {
        let body = s.at(tag.position);
        lemma_extension_forward(body);
        lemma_image_data_forward(body);
        let kind = s.byte(0);
        if kind == EXTENSION && extension(body).result is Ok {
            lemma_frames_add_up(s.at(extension(body).position), frames);
        } else if kind == IMAGE_DESCRIPTOR && image_data(body).result is Ok {
            lemma_frames_add_up(s.at(image_data(body).position), frames + 1);
            lemma_frames_add_up(s.at(image_data(body).position), 1);
        }
    }
}

/// A walk passes no more image descriptors than bytes are left to read.
pub proof fn lemma_frames_take_bytes(s: Stream, frames: nat)
    ensures
        frames <= blocks(s, frames).frames <= frames + s.available(),
    decreases s.available(),
{
    let tag = s.read_u8();
    if tag.result is Ok {
        let body = s.at(tag.position);
        lemma_extension_forward(body);
        lemma_image_data_forward(body);
        let kind = s.byte(0);
        if kind == EXTENSION && extension(body).result is Ok {
            lemma_frames_take_bytes(s.at(extension(body).position), frames);
        } else if kind == IMAGE_DESCRIPTOR && image_data(body).result is Ok {
            lemma_frames_take_bytes(s.at(image_data(body).position), frames + 1);
        }
    }
}

/// An image descriptor in front of a walk adds one frame to what the walk
/// behind it counts, and an extension adds none.
pub proof fn lemma_block_in_front(s: Stream)
    requires
        1 <= s.available(),
    ensures
        s.byte(0) == IMAGE_DESCRIPTOR && image_data(s.at(s.position + 1)).result is Ok ==> {
            let rest = s.at(image_data(s.at(s.position + 1)).position);
            &&& blocks(s, 0).outcome == blocks(rest, 0).outcome
            &&& blocks(s, 0).frames == blocks(rest, 0).frames + 1
        },
        s.byte(0) == EXTENSION && extension(s.at(s.position + 1)).result is Ok ==> blocks(s, 0)
            == blocks(s.at(extension(s.at(s.position + 1)).position), 0),
{
    if s.byte(0) == IMAGE_DESCRIPTOR && image_data(s.at(s.position + 1)).result is Ok {
        lemma_frames_add_up(s.at(image_data(s.at(s.position + 1)).position), 1);
    }
}

/// The metadata of a stream in memory reports no frame count where the walk
/// over its blocks passes one image descriptor or none, and reports the
/// number of image descriptors passed where there are more.
pub proof fn lemma_animation_frames(s: Stream)
    requires
        s.bytes.len() <= usize::MAX,
        metadata(s).result is Ok,
    ensures
        ({
            let frames = blocks(s.at(header(s.at(signature(s).position)).position), 0).frames;
            let reported = metadata(s).result->Ok_0.animation_frames;
            &&& frames <= 1 ==> reported is None
            &&& 1 < frames ==> reported == Some(frames as usize) && frames as usize == frames
        }),
{
    lemma_frames_take_bytes(s.at(header(s.at(signature(s).position)).position), 0);
}

/// A tag that is none of the three that the format knows ends the walk with
/// an error that names it, and the cursor stops right behind the tag.
pub proof fn lemma_unknown_block(s: Stream, frames: nat)
    requires
        1 <= s.available(),
        s.byte(0) != EXTENSION,
        s.byte(0) != IMAGE_DESCRIPTOR,
        s.byte(0) != TRAILER,
    ensures
        blocks(s, frames) == (Walk {
            frames,
            outcome: Outcome::fail(
                ImageErrorView::CorruptImage(unknown_block_text(s.byte(0))),
                s.position + 1,
            ),
        }),
{
}

/// Where the first tag behind the screen descriptor is none of the three that
/// the format knows, the read fails with an error that names the tag, and the
/// cursor stops right behind it.
pub proof fn lemma_unknown_first_block(s: Stream)
    requires
        signature(s).result is Ok,
        header(s.at(signature(s).position)).result is Ok,
        1 <= s.at(header(s.at(signature(s).position)).position).available(),
        s.at(header(s.at(signature(s).position)).position).byte(0) != EXTENSION,
        s.at(header(s.at(signature(s).position)).position).byte(0) != IMAGE_DESCRIPTOR,
        s.at(header(s.at(signature(s).position)).position).byte(0) != TRAILER,
    ensures
        ({
            let first = s.at(header(s.at(signature(s).position)).position);
            metadata(s) == Outcome::<ImageMeta>::fail(
                ImageErrorView::CorruptImage(unknown_block_text(first.byte(0))),
                first.position + 1,
            )
        }),
{
}

/// A label that is none of the four that the format defines fails the
/// extension with an error that names it, right behind the label.
pub proof fn lemma_unknown_extension(s: Stream)
    requires
        1 <= s.available(),
        !is_extension_label(s.byte(0)),
    ensures
        extension(s) == Outcome::<()>::fail(
            ImageErrorView::CorruptImage(unknown_extension_text(s.byte(0))),
            s.position + 1,
        ),
{
}

/// The same stream with the byte at offset `index`, which lies in the data,
/// replaced by `value`.
pub open spec fn patched(s: Stream, index: nat, value: u8) -> Stream {
    Stream { bytes: s.bytes.update(index as int, value), position: s.position }
}

/// Whether offset `index` lies in the payload of one of the sub-blocks that
/// start at the cursor.
pub open spec fn in_payload(s: Stream, index: nat) -> bool
    decreases s.available(),
{
    let size = s.read_u8();
    match size.result {
        Ok(length) if length != 0 => {
            let skip = s.at(size.position).seek_relative(length as int);
            size.position <= index < size.position + length || (skip.result is Ok && in_payload(
                s.at(skip.position),
                index,
            ))
        },
        _ => false,
    }
}

/// A sequence of sub-blocks reads no byte in front of the cursor.
proof fn lemma_sub_blocks_read_ahead(s: Stream, t: Stream)
    requires
        s.position == t.position,
        s.bytes.len() == t.bytes.len(),
        forall|i: int| s.position <= i < s.bytes.len() ==> s.bytes[i] == t.bytes[i],
    ensures
        sub_blocks(s) == sub_blocks(t),
    decreases s.available(),
{
    let size = s.read_u8();
    match size.result {
        Ok(length) if length != 0 => {
            let skip = s.at(size.position).seek_relative(length as int);
            if skip.result is Ok {
                lemma_sub_blocks_read_ahead(s.at(skip.position), t.at(skip.position));
            }
        },
        _ => {},
    }
}

/// What a sequence of sub-blocks holds as payload is never read: any other
/// byte in its place gives the same outcome.
pub proof fn lemma_payload_is_not_read(s: Stream, index: nat, value: u8)
    requires
        in_payload(s, index),
        index < s.bytes.len(),
    ensures
        sub_blocks(patched(s, index, value)) == sub_blocks(s),
    decreases s.available(),
{
    let p = patched(s, index, value);
    let size = s.read_u8();
    match size.result {
        Ok(length) if length != 0 => {
            let skip = s.at(size.position).seek_relative(length as int);
            if size.position <= index < size.position + length {
                if skip.result is Ok {
                    lemma_sub_blocks_read_ahead(s.at(skip.position), p.at(skip.position));
                }
            } else {
                lemma_payload_starts_at_cursor(s.at(skip.position), index);
                assert(p.at(skip.position) == patched(s.at(skip.position), index, value));
                lemma_payload_is_not_read(s.at(skip.position), index, value);
            }
        },
        _ => {},
    }
}

/// The four labels that the format defines are skipped alike: with any of
/// them in the place of another, and with any payload in the sub-blocks, an
/// extension gives the same outcome, that of the sub-blocks behind the label.
pub proof fn lemma_extensions_are_skipped_alike(s: Stream, label: u8)
    requires
        1 <= s.available(),
        is_extension_label(s.byte(0)),
        is_extension_label(label),
    ensures
        extension(s) == sub_blocks(s.at(s.position + 1)),
        extension(patched(s, s.position, label)) == extension(s),
        forall|index: nat, value: u8|
            in_payload(s.at(s.position + 1), index) && index < s.bytes.len()
                ==> #[trigger] extension(patched(s, index, value)) == extension(s),
{
    let relabelled = patched(s, s.position, label);
    lemma_sub_blocks_read_ahead(s.at(s.position + 1), relabelled.at(s.position + 1));
    assert forall|index: nat, value: u8|
        in_payload(s.at(s.position + 1), index) && index < s.bytes.len() implies #[trigger] extension(
        patched(s, index, value),
    ) == extension(s) by {
        lemma_payload_starts_at_cursor(s.at(s.position + 1), index);
        assert(patched(s, index, value).at(s.position + 1) == patched(
            s.at(s.position + 1),
            index,
            value,
        ));
        lemma_payload_is_not_read(s.at(s.position + 1), index, value);
    }
}

/// Payload lies behind the cursor, inside the data or beyond it.
proof fn lemma_payload_starts_at_cursor(s: Stream, index: nat)
    requires
        in_payload(s, index),
    ensures
        s.position < index,
    decreases s.available(),
{
    let size = s.read_u8();
    match size.result {
        Ok(length) if length != 0 => {
            let skip = s.at(size.position).seek_relative(length as int);
            if !(size.position <= index < size.position + length) {
                lemma_payload_starts_at_cursor(s.at(skip.position), index);
            }
        },
        _ => {},
    }
}

/// The first `length` bytes of a stream, with the cursor where it was.
pub open spec fn truncated(s: Stream, length: nat) -> Stream {
    Stream { bytes: s.bytes.take(length as int), position: s.position }
}

/// Whether `cut`, the outcome on a stream of `length` bytes, reports the end
/// of the data where the longer stream gave `whole`. The cursor then stands
/// at or beyond the first byte that is missing and, where the longer stream
/// was read with success, in front of where that read stopped.
pub open spec fn cut_short<T>(cut: Outcome<T>, whole: Outcome<T>, length: nat) -> bool {
    &&& cut.result == Err::<T, ImageErrorView>(ImageErrorView::IoError(IoFailure::UnexpectedEof))
    &&& length <= cut.position
    &&& whole.result is Ok ==> cut.position < whole.position
}

proof fn lemma_truncated_sub_blocks(s: Stream, length: nat)
    requires
        length <= s.bytes.len(),
    ensures
        sub_blocks(truncated(s, length)) == sub_blocks(s) || cut_short(
            sub_blocks(truncated(s, length)),
            sub_blocks(s),
            length,
        ),
    decreases s.available(),
{
    let t = truncated(s, length);
    let size = s.read_u8();
    lemma_sub_blocks_forward(s.at(size.position));
    match size.result {
        Ok(size_byte) if size_byte != 0 => {
            let skip = s.at(size.position).seek_relative(size_byte as int);
            if skip.result is Ok {
                lemma_sub_blocks_forward(s.at(skip.position));
                if t.read_u8() == size {
                    assert(t.at(skip.position) == truncated(s.at(skip.position), length));
                    lemma_truncated_sub_blocks(s.at(skip.position), length);
                }
            }
        },
        _ => {},
    }
}

proof fn lemma_truncated_extension(s: Stream, length: nat)
    requires
        length <= s.bytes.len(),
    ensures
        extension(truncated(s, length)) == extension(s) || cut_short(
            extension(truncated(s, length)),
            extension(s),
            length,
        ),
{
    let t = truncated(s, length);
    let label = s.read_u8();
    if label.result is Ok {
        lemma_sub_blocks_forward(s.at(label.position));
        if t.read_u8() == label {
            assert(t.at(label.position) == truncated(s.at(label.position), length));
            lemma_truncated_sub_blocks(s.at(label.position), length);
        }
    }
}

proof fn lemma_truncated_image_data(s: Stream, length: nat)
    requires
        length <= s.bytes.len(),
    ensures
        image_data(truncated(s, length)) == image_data(s) || cut_short(
            image_data(truncated(s, length)),
            image_data(s),
            length,
        ),
{
    let t = truncated(s, length);
    let frame = s.seek_relative(8);
    if frame.result is Ok {
        let flags = s.at(frame.position).read_u8();
        match flags.result {
            Ok(bits) => {
                lemma_color_table_bytes_multiple_of_three(bits);
                let skip = s.at(flags.position).seek_relative(color_table_bytes(bits) + 1);
                if skip.result is Ok {
                    lemma_sub_blocks_forward(s.at(skip.position));
                    if t.at(frame.position).read_u8() == flags {
                        assert(t.at(skip.position) == truncated(s.at(skip.position), length));
                        lemma_truncated_sub_blocks(s.at(skip.position), length);
                    }
                }
            },
            Err(_) => {},
        }
    }
}

proof fn lemma_truncated_blocks(s: Stream, frames: nat, length: nat)
    requires
        length <= s.bytes.len(),
    ensures
        blocks(truncated(s, length), frames) == blocks(s, frames) || cut_short(
            blocks(truncated(s, length), frames).outcome,
            blocks(s, frames).outcome,
            length,
        ),
    decreases s.available(),
{
    let t = truncated(s, length);
    let tag = s.read_u8();
    if tag.result is Ok {
        let body = s.at(tag.position);
        assert(t.at(tag.position) == truncated(body, length));
        lemma_truncated_extension(body, length);
        lemma_truncated_image_data(body, length);
        lemma_extension_forward(body);
        lemma_image_data_forward(body);
        let kind = s.byte(0);
        if kind == EXTENSION {
            let block = extension(body);
            if block.result is Ok {
                lemma_blocks_forward(s.at(block.position), frames);
                if t.read_u8() == tag && extension(truncated(body, length)) == block {
                    assert(t.at(block.position) == truncated(s.at(block.position), length));
                    lemma_truncated_blocks(s.at(block.position), frames, length);
                }
            }
        } else if kind == IMAGE_DESCRIPTOR {
            let block = image_data(body);
            if block.result is Ok {
                lemma_blocks_forward(s.at(block.position), frames + 1);
                if t.read_u8() == tag && image_data(truncated(body, length)) == block {
                    assert(t.at(block.position) == truncated(s.at(block.position), length));
                    lemma_truncated_blocks(s.at(block.position), frames + 1, length);
                }
            }
        }
    }
}

/// A walk that reaches the trailer ends inside the data, just behind it.
proof fn lemma_blocks_end_in_data(s: Stream, frames: nat)
    requires
        blocks(s, frames).outcome.result is Ok,
    ensures
        0 < blocks(s, frames).outcome.position <= s.bytes.len(),
        s.bytes[blocks(s, frames).outcome.position - 1] == TRAILER,
    decreases s.available(),
{
    let tag = s.read_u8();
    let body = s.at(tag.position);
    lemma_extension_forward(body);
    lemma_image_data_forward(body);
    let kind = s.byte(0);
    if kind == EXTENSION {
        lemma_blocks_end_in_data(s.at(extension(body).position), frames);
    } else if kind == IMAGE_DESCRIPTOR {
        lemma_blocks_end_in_data(s.at(image_data(body).position), frames + 1);
    }
}

/// Taking bytes off the end of a stream either changes nothing of what a read
/// of its metadata gives, or makes the read fail for want of data, with the
/// cursor at or beyond the first byte that is missing.
pub proof fn lemma_truncation_only_cuts_short(s: Stream, length: nat)
    requires
        length <= s.bytes.len(),
    ensures
        metadata(truncated(s, length)) == metadata(s) || cut_short(
            metadata(truncated(s, length)),
            metadata(s),
            length,
        ),
{
    let t = truncated(s, length);
    if 6 <= t.available() {
        assert(t.ahead(6) =~= s.ahead(6));
    }
    let magic = signature(s);
    if magic.result is Ok {
        let screen = header(s.at(magic.position));
        if screen.result is Ok {
            lemma_color_table_bytes_multiple_of_three(s.at(magic.position).byte(4));
            lemma_blocks_forward(s.at(screen.position), 0);
            if signature(t) == magic && header(t.at(magic.position)) == screen {
                assert(t.at(screen.position) == truncated(s.at(screen.position), length));
                lemma_truncated_blocks(s.at(screen.position), 0, length);
            }
        }
    }
}

/// A stream whose metadata can be read ends its last block with the trailer,
/// and the read stops just behind it, inside the data.
pub proof fn lemma_success_ends_behind_trailer(s: Stream)
    requires
        metadata(s).result is Ok,
    ensures
        0 < metadata(s).position <= s.bytes.len(),
        s.bytes[metadata(s).position - 1] == TRAILER,
{
    let magic = signature(s);
    let screen = header(s.at(magic.position));
    lemma_blocks_end_in_data(s.at(screen.position), 0);
}

/// Cutting a stream whose metadata can be read anywhere in front of the end
/// of its trailer makes the read fail for want of data: it never succeeds on
/// less. The cursor then stands on a byte that was cut away.
pub proof fn lemma_truncated_stream_fails(s: Stream, length: nat)
    requires
        metadata(s).result is Ok,
        length < metadata(s).position,
    ensures
        metadata(truncated(s, length)).result == Err::<ImageMeta, ImageErrorView>(
            ImageErrorView::IoError(IoFailure::UnexpectedEof),
        ),
        length <= metadata(truncated(s, length)).position < metadata(s).position,
{
    lemma_success_ends_behind_trailer(s);
    lemma_truncation_only_cuts_short(s, length);
    if metadata(truncated(s, length)) == metadata(s) {
        lemma_success_ends_behind_trailer(truncated(s, length));
    }
}

/// What follows the trailer is never read: a stream whose metadata can be
/// read gives the same with any bytes behind it.
pub proof fn lemma_bytes_behind_trailer_are_not_read(s: Stream, longer: Stream)
    requires
        metadata(s).result is Ok,
        longer.position == s.position,
        s.bytes.len() <= longer.bytes.len(),
        longer.bytes.take(s.bytes.len() as int) == s.bytes,
    ensures
        metadata(longer) == metadata(s),
{
    assert(truncated(longer, s.bytes.len()) == s);
    lemma_truncation_only_cuts_short(longer, s.bytes.len());
}

} // verus!
