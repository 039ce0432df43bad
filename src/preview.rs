//! The preview records: an entry for one URL of a message, and its image.
use vstd::prelude::*;

use crate::json::{entries_model, Json, JsonValue};

verus! {

/// An encrypted image: where it is, and what decrypts it.
///
/// The key, the initialization vector, the hashes and the version tag are
/// carried through as they came and are not interpreted here.
#[derive(Clone, Debug, PartialEq, Eq)]
pub struct EncryptedFile {
    /// The content reference of the encrypted bytes.
    pub url: String,
    /// The key, as a JSON web key object.
    pub key: Vec<(String, JsonValue)>,
    /// The initialization vector.
    pub iv: String,
    /// The hashes of the encrypted bytes, by algorithm.
    pub hashes: Vec<(String, JsonValue)>,
    /// The version tag of the encryption scheme.
    pub v: String,
}

/// Where the image of a preview comes from: a plain content reference, or an
/// encrypted one. Being one variant, the two can never both be given.
#[derive(Clone, Debug, PartialEq, Eq)]
pub enum PreviewImageSource {
    EncryptedImage(EncryptedFile),
    Url(String),
}

/// The image of a preview: its source and what is known of it.
#[derive(Clone, Debug, PartialEq, Eq)]
#[non_exhaustive]
pub struct PreviewImage {
    /// Source information for the image.
    pub source: PreviewImageSource,
    /// The size of the image in bytes.
    pub size: Option<u64>,
    /// The width of the image in pixels.
    pub width: Option<u64>,
    /// The height of the image in pixels.
    pub height: Option<u64>,
    /// The media type of the image.
    pub mimetype: Option<String>,
}

/// Preview information for a URL found in the text of a message.
#[derive(Clone, Debug, PartialEq, Eq)]
#[non_exhaustive]
pub struct UrlPreview {
    /// The URL, as it stands in the message, that this entry describes.
    pub matched_url: Option<String>,
    /// The canonical URL of the page.
    pub url: Option<String>,
    /// The title of the page.
    pub title: Option<String>,
    /// The description of the page.
    pub description: Option<String>,
    /// The image of the page, if it has one.
    pub image: Option<PreviewImage>,
}

/// The model of an [`EncryptedFile`].
pub struct EncryptedFileModel {
    pub url: Seq<char>,
    pub key: Seq<(Seq<char>, Json)>,
    pub iv: Seq<char>,
    pub hashes: Seq<(Seq<char>, Json)>,
    pub v: Seq<char>,
}

/// The model of a [`PreviewImageSource`].
pub enum ImageSourceModel {
    EncryptedImage(EncryptedFileModel),
    Url(Seq<char>),
}

/// The model of a [`PreviewImage`].
pub struct PreviewImageModel {
    pub source: ImageSourceModel,
    pub size: Option<u64>,
    pub width: Option<u64>,
    pub height: Option<u64>,
    pub mimetype: Option<Seq<char>>,
}

/// The model of a [`UrlPreview`].
pub struct UrlPreviewModel {
    pub matched_url: Option<Seq<char>>,
    pub url: Option<Seq<char>>,
    pub title: Option<Seq<char>>,
    pub description: Option<Seq<char>>,
    pub image: Option<PreviewImageModel>,
}

/// The model of a string that may be missing.
pub open spec fn opt_str(s: Option<String>) -> Option<Seq<char>> {
    match s {
        Some(s) => Some(s@),
        None => None,
    }
}

impl View for EncryptedFile {
    type V = EncryptedFileModel;

    open spec fn view(&self) -> EncryptedFileModel {
        EncryptedFileModel {
            url: self.url@,
            key: entries_model(self.key@),
            iv: self.iv@,
            hashes: entries_model(self.hashes@),
            v: self.v@,
        }
    }
}

impl View for PreviewImageSource {
    type V = ImageSourceModel;

    open spec fn view(&self) -> ImageSourceModel {
        match self {
            PreviewImageSource::EncryptedImage(f) => ImageSourceModel::EncryptedImage(f@),
            PreviewImageSource::Url(u) => ImageSourceModel::Url(u@),
        }
    }
}

impl View for PreviewImage {
    type V = PreviewImageModel;

    open spec fn view(&self) -> PreviewImageModel {
        PreviewImageModel {
            source: self.source@,
            size: self.size,
            width: self.width,
            height: self.height,
            mimetype: opt_str(self.mimetype),
        }
    }
}

/// The model of an image that may be missing.
pub open spec fn opt_image(i: Option<PreviewImage>) -> Option<PreviewImageModel> {
    match i {
        Some(i) => Some(i@),
        None => None,
    }
}

impl View for UrlPreview {
    type V = UrlPreviewModel;

    open spec fn view(&self) -> UrlPreviewModel {
        UrlPreviewModel {
            matched_url: opt_str(self.matched_url),
            url: opt_str(self.url),
            title: opt_str(self.title),
            description: opt_str(self.description),
            image: opt_image(self.image),
        }
    }
}

/// An entry carries a usable preview when any of the canonical URL, the title,
/// the description or an image is given.
pub open spec fn carries_preview(p: UrlPreviewModel) -> bool {
    p.url is Some || p.title is Some || p.description is Some || p.image is Some
}

impl PreviewImage {
    /// An image with the given plain content reference as its source.
    pub fn plain(url: String) -> (r: PreviewImage)
        ensures
            r@ == (PreviewImageModel {
                source: ImageSourceModel::Url(url@),
                size: None,
                width: None,
                height: None,
                mimetype: None,
            }),
    {
        Self::with_image(PreviewImageSource::Url(url))
    }

    /// An image with the given encrypted file as its source.
    pub fn encrypted(file: EncryptedFile) -> (r: PreviewImage)
        ensures
            r@ == (PreviewImageModel {
                source: ImageSourceModel::EncryptedImage(file@),
                size: None,
                width: None,
                height: None,
                mimetype: None,
            }),
    {
        Self::with_image(PreviewImageSource::EncryptedImage(file))
    }

    fn with_image(source: PreviewImageSource) -> (r: PreviewImage)
        ensures
            r.source == source,
            r.size is None,
            r.width is None,
            r.height is None,
            r.mimetype is None,
    {
        PreviewImage { source, size: None, width: None, height: None, mimetype: None }
    }
}

impl UrlPreview {
    /// An entry for a matched URL, with nothing else known.
    pub fn matched_url(matched_url: String) -> (r: UrlPreview)
        ensures
            r@ == (UrlPreviewModel {
                matched_url: Some(matched_url@),
                url: None,
                title: None,
                description: None,
                image: None,
            }),
    {
        UrlPreview { matched_url: Some(matched_url), url: None, image: None, description: None, title: None }
    }

    /// An entry for a canonical URL, with nothing else known.
    pub fn canonical_url(url: String) -> (r: UrlPreview)
        ensures
            r@ == (UrlPreviewModel {
                matched_url: None,
                url: Some(url@),
                title: None,
                description: None,
                image: None,
            }),
    {
        UrlPreview { matched_url: None, url: Some(url), image: None, description: None, title: None }
    }

    /// Whether this entry has an image.
    pub fn has_image(&self) -> (r: bool)
        ensures
            r == (self@.image is Some),
    {
        self.image.is_some()
    }

    /// Whether this entry carries an actual preview; where it does not, the
    /// reader should ask its homeserver for preview data instead.
    pub fn contains_preview(&self) -> (r: bool)
        ensures
            r == carries_preview(self@),
    {
        self.url.is_some() || self.title.is_some() || self.description.is_some() || self.has_image()
    }

    /// Whether the reader should ask its homeserver for preview data, this
    /// entry carrying none.
    pub fn should_ask_homeserver(&self) -> (r: bool)
        ensures
            r == !carries_preview(self@),
    {
        !self.contains_preview()
    }
}

} // verus!
