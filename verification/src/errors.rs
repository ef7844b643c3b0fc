//! Errors of a metadata read, and the text they carry.

use vstd::prelude::*;
use vstd::string::*;

verus! {

/// Why a read or a seek on the byte stream failed.
#[derive(Clone, Copy, Debug, PartialEq, Eq)]
pub enum IoFailure {
    /// Fewer bytes were left than the read asked for.
    UnexpectedEof,
    /// The seek would have left the range of stream positions.
    InvalidSeek,
}

/// Why no metadata could be read.
#[derive(Debug, PartialEq, Eq)]
pub enum ImageError {
    /// The stream does not start with a GIF signature.
    InvalidSignature,
    /// The stream holds a tag outside the recognized set; the text names it.
    CorruptImage(String),
    /// A read or a seek failed.
    IoError(IoFailure),
}

pub type ImageResult<T> = Result<T, ImageError>;

pub type ImageResultU = ImageResult<()>;

/// An `ImageError` with its text as a sequence of characters.
pub enum ImageErrorView {
    InvalidSignature,
    CorruptImage(Seq<char>),
    IoError(IoFailure),
}

impl View for ImageError {
    type V = ImageErrorView;

    open spec fn view(&self) -> ImageErrorView {
        match self {
            ImageError::InvalidSignature => ImageErrorView::InvalidSignature,
            ImageError::CorruptImage(detail) => ImageErrorView::CorruptImage(detail@),
            ImageError::IoError(failure) => ImageErrorView::IoError(*failure),
        }
    }
}

/// The digit that stands for `nibble` in lower-case hexadecimal.
pub open spec fn hex_char(nibble: int) -> char {
    seq!['0', '1', '2', '3', '4', '5', '6', '7', '8', '9', 'a', 'b', 'c', 'd', 'e', 'f'][nibble]
}

/// `value` in lower-case hexadecimal, without prefix or leading zero.
pub open spec fn hex_text(value: u8) -> Seq<char> {
    if value < 16 {
        seq![hex_char(value as int)]
    } else {
        seq![hex_char(value as int / 16), hex_char(value as int % 16)]
    }
}

/// The text of the error for a block tag outside the recognized set.
pub open spec fn unknown_block_text(tag: u8) -> Seq<char> {
    "Unknown block: "@ + hex_text(tag)
}

/// The text of the error for an extension label outside the recognized set.
pub open spec fn unknown_extension_text(label: u8) -> Seq<char> {
    "Unknown extension: "@ + hex_text(label)
}

fn hex_digit(nibble: u8) -> (digit: &'static str)
    requires
        nibble < 16,
    ensures
        digit@ == seq![hex_char(nibble as int)],
{
    proof {
        reveal_strlit("0");
        reveal_strlit("1");
        reveal_strlit("2");
        reveal_strlit("3");
        reveal_strlit("4");
        reveal_strlit("5");
        reveal_strlit("6");
        reveal_strlit("7");
        reveal_strlit("8");
        reveal_strlit("9");
        reveal_strlit("a");
        reveal_strlit("b");
        reveal_strlit("c");
        reveal_strlit("d");
        reveal_strlit("e");
        reveal_strlit("f");
    }
    match nibble {
        0 => "0",
        1 => "1",
        2 => "2",
        3 => "3",
        4 => "4",
        5 => "5",
        6 => "6",
        7 => "7",
        8 => "8",
        9 => "9",
        10 => "a",
        11 => "b",
        12 => "c",
        13 => "d",
        14 => "e",
        _ => "f",
    }
}

/// Appends `value` in lower-case hexadecimal to `prefix`.
fn with_hex(prefix: &str, value: u8) -> (text: String)
    ensures
        text@ == prefix@ + hex_text(value),
{
    let text = String::from_str(prefix);
    if value < 16 {
        text.concat(hex_digit(value))
    } else {
        text.concat(hex_digit(value / 16)).concat(hex_digit(value % 16))
    }
}

impl ImageError {
    /// The error for a block tag outside the recognized set.
    pub fn unknown_block(tag: u8) -> (error: ImageError)
        ensures
            error@ == ImageErrorView::CorruptImage(unknown_block_text(tag)),
    {
        ImageError::CorruptImage(with_hex("Unknown block: ", tag))
    }

    /// The error for an extension label outside the recognized set.
    pub fn unknown_extension(label: u8) -> (error: ImageError)
        ensures
            error@ == ImageErrorView::CorruptImage(unknown_extension_text(label)),
    {
        ImageError::CorruptImage(with_hex("Unknown extension: ", label))
    }
}

} // verus!
