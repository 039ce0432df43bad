//! A codec for URL preview metadata carried inside chat messages.
//!
//! An entry describes one URL found in the text of a message: its title,
//! description, canonical URL and image. On the wire it is one flat JSON
//! object whose keys follow OpenGraph and its Matrix extensions, with the
//! image's keys merged in beside the entry's own. Encoding writes each field
//! under its canonical key and leaves out what is not given; decoding accepts
//! every spelling that earlier versions wrote.

pub mod codec;
pub mod json;
pub mod keys;
pub mod laws;
pub mod preview;

pub use codec::{decode_url_previews, encode_url_previews, url_previews_of, DecodeError};
pub use json::JsonValue;
pub use keys::PreviewField;
pub use preview::{EncryptedFile, PreviewImage, PreviewImageSource, UrlPreview};
