//! Images: which of them are worth sending, and the shape they are sent in.

pub mod css;
pub mod decode;
pub mod encode;
pub mod fetch;
pub mod filter;
pub mod html;
pub mod markup;
pub mod scale;

use crate::base64_text;
use crate::text::chars_of;
use crate::text::push_text;
use crate::text::string_of;
use vstd::prelude::*;

verus! {

/// Where an image came from. Images referenced from markup are filtered; one
/// that was copied, or came as a file, was meant and never is.
#[derive(Debug, Clone, Copy, PartialEq, Eq, Structural)]
pub enum ImageOrigin {
    Clipboard,
    File,
    Markup,
}

/// How an attachment's bytes are encoded.
#[derive(Debug, Clone, Copy, PartialEq, Eq, Structural)]
pub enum ImageMime {
    Png,
    Jpeg,
}

/// The MIME type of an encoding.
pub open spec fn mime_text(m: ImageMime) -> Seq<char> {
    match m {
        ImageMime::Png => "image/png"@,
        ImageMime::Jpeg => "image/jpeg"@,
    }
}

impl ImageMime {
    /// The MIME type.
    pub fn as_str(self) -> (r: &'static str)
        ensures
            r@ == mime_text(self),
    {
        match self {
            ImageMime::Png => "image/png",
            ImageMime::Jpeg => "image/jpeg",
        }
    }
}

/// An image ready to be sent, and what size it was before.
#[derive(Debug, Clone, PartialEq)]
pub struct ImageAttachment {
    /// The encoded image.
    pub bytes: std::sync::Arc<Vec<u8>>,
    pub mime: ImageMime,
    /// The size of the encoded image, in pixels.
    pub width: u32,
    pub height: u32,
    /// The size it came in.
    pub source_width: u32,
    pub source_height: u32,
    pub origin: ImageOrigin,
}

/// What is in an [`ImageAttachment`].
#[verifier::ext_equal]
pub struct AttachmentView {
    pub bytes: Seq<u8>,
    pub mime: ImageMime,
    pub width: u32,
    pub height: u32,
    pub source_width: u32,
    pub source_height: u32,
    pub origin: ImageOrigin,
}

impl ImageAttachment {
    /// What is in it.
    pub open spec fn view(&self) -> AttachmentView {
        AttachmentView {
            bytes: self.bytes@,
            mime: self.mime,
            width: self.width,
            height: self.height,
            source_width: self.source_width,
            source_height: self.source_height,
            origin: self.origin,
        }
    }
}

/// The `data:` URI of an image.
pub open spec fn data_uri_text(mime: ImageMime, b: Seq<u8>) -> Seq<char> {
    "data:"@ + mime_text(mime) + ";base64,"@ + base64_text::base64_encoded(b)
}

/// The `data:` URI of an image. One that is not too long can be read out of it
/// again.
pub fn data_uri_of(mime: ImageMime, b: &[u8]) -> (r: String)
    requires
        b@.len() <= usize::MAX / 4,
    ensures
        r@ == data_uri_text(mime, b@),
        b@.len() <= fetch::MAX_SOURCE_BYTES ==> fetch::inline_bytes(r@) == Some(b@),
{
    let mut v = chars_of("data:");
    push_text(&mut v, mime.as_str());
    push_text(&mut v, ";base64,");
    let t = base64_text::encode(b);
    push_text(&mut v, t.as_str());
    proof {
        if b@.len() <= fetch::MAX_SOURCE_BYTES {
            fetch::lemma_data_uri(mime_text(mime), t@);
        }
    }
    string_of(&v)
}

impl ImageAttachment {
    /// The `data:` URI that requests take.
    pub fn data_uri(&self) -> (r: String)
        requires
            self.bytes@.len() <= usize::MAX / 4,
        ensures
            r@ == data_uri_text(self.mime, self.bytes@),
            self.bytes@.len() <= fetch::MAX_SOURCE_BYTES ==> fetch::inline_bytes(r@) == Some(
                self.bytes@,
            ),
    {
        data_uri_of(self.mime, &self.bytes)
    }

    /// Whether the size sent differs from the size it came in.
    pub fn is_resized(&self) -> (r: bool)
        ensures
            r == (self.width != self.source_width || self.height != self.source_height),
    {
        self.width != self.source_width || self.height != self.source_height
    }

    /// A stand-in of two by two pixels that was copied as PNG, where only the
    /// bytes matter.
    pub fn stub(bytes: Vec<u8>) -> (r: ImageAttachment)
        ensures
            r.bytes@ == bytes@,
            r.mime == ImageMime::Png,
            r.width == 2,
            r.height == 2,
            r.source_width == 2,
            r.source_height == 2,
            r.origin == ImageOrigin::Clipboard,
    {
        ImageAttachment {
            bytes: std::sync::Arc::new(bytes),
            mime: ImageMime::Png,
            width: 2,
            height: 2,
            source_width: 2,
            source_height: 2,
            origin: ImageOrigin::Clipboard,
        }
    }
}

} // verus!
