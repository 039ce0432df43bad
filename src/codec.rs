//! Encoding a preview entry into one flat object, and decoding it back.
//!
//! The image's keys are merged into the entry's own object. Each field is
//! written under its canonical key and read under any of its accepted keys.
use vstd::prelude::*;

use crate::json::{
    entries_model, find, find_entry, lemma_entries_model, lemma_values_model, opt_model, present,
    present_entry, values_model, Json, JsonValue,
};
use crate::keys::{canonical, field_keys, field_value, lookup_field, PreviewField};
use crate::preview::{
    opt_image, opt_str, EncryptedFile, EncryptedFileModel, ImageSourceModel, PreviewImage,
    PreviewImageModel, PreviewImageSource, UrlPreview, UrlPreviewModel,
};

verus! {

/// Why an object is not a preview entry.
#[derive(Clone, Copy, Debug, PartialEq, Eq, Structural)]
pub enum DecodeError {
    /// A required field is absent.
    MissingField(PreviewField),
    /// A field holds a value of the wrong type.
    TypeMismatch(PreviewField),
    /// The encrypted image is not a well-formed encrypted file.
    MalformedEncryption,
}

// ---- The encoded form ----

/// `acc`, followed by an entry for `key` where a string is given.
pub open spec fn with_str(
    acc: Seq<(Seq<char>, Json)>,
    key: Seq<char>,
    v: Option<Seq<char>>,
) -> Seq<(Seq<char>, Json)> {
    match v {
        Some(s) => acc.push((key, Json::Str(s))),
        None => acc,
    }
}

/// `acc`, followed by an entry for `key` where a number is given.
pub open spec fn with_uint(acc: Seq<(Seq<char>, Json)>, key: Seq<char>, v: Option<u64>) -> Seq<
    (Seq<char>, Json),
> {
    match v {
        Some(n) => acc.push((key, Json::UInt(n))),
        None => acc,
    }
}

/// The object that holds an encrypted file.
pub open spec fn encrypted_entries(f: EncryptedFileModel) -> Seq<(Seq<char>, Json)> {
    Seq::empty()
        .push(("url"@, Json::Str(f.url)))
        .push(("key"@, Json::Object(f.key)))
        .push(("iv"@, Json::Str(f.iv)))
        .push(("hashes"@, Json::Object(f.hashes)))
        .push(("v"@, Json::Str(f.v)))
}

/// The entries of an image source: one key of its own variant only.
pub open spec fn source_entries(s: ImageSourceModel) -> Seq<(Seq<char>, Json)> {
    match s {
        ImageSourceModel::Url(u) => seq![(canonical(PreviewField::ImageUrl), Json::Str(u))],
        ImageSourceModel::EncryptedImage(f) => seq![
            (canonical(PreviewField::ImageEncryption), Json::Object(encrypted_entries(f))),
        ],
    }
}

/// The entries of an image: its source, then each piece of metadata given.
pub open spec fn image_entries(i: PreviewImageModel) -> Seq<(Seq<char>, Json)> {
    let a = source_entries(i.source);
    let b = with_uint(a, canonical(PreviewField::ImageSize), i.size);
    let c = with_uint(b, canonical(PreviewField::ImageWidth), i.width);
    let d = with_uint(c, canonical(PreviewField::ImageHeight), i.height);
    with_str(d, canonical(PreviewField::ImageType), i.mimetype)
}

/// The entry's own fields that are given, in a fixed order.
pub open spec fn own_entries(p: UrlPreviewModel) -> Seq<(Seq<char>, Json)> {
    let a = with_str(Seq::empty(), canonical(PreviewField::MatchedUrl), p.matched_url);
    let b = with_str(a, canonical(PreviewField::CanonicalUrl), p.url);
    let c = with_str(b, canonical(PreviewField::Title), p.title);
    with_str(c, canonical(PreviewField::Description), p.description)
}

/// The encoded entry: its own fields, merged with those of its image if it
/// has one.
pub open spec fn preview_entries(p: UrlPreviewModel) -> Seq<(Seq<char>, Json)> {
    match p.image {
        Some(i) => own_entries(p) + image_entries(i),
        None => own_entries(p),
    }
}

// ---- The decoded form ----

/// The type that a field's value must have.
#[derive(Clone, Copy, Debug, PartialEq, Eq, Structural)]
pub enum ValueKind {
    Str,
    UInt,
    Encrypted,
}

/// Whether a value has the type of a kind.
pub open spec fn fits(kind: ValueKind, v: Json) -> bool {
    match kind {
        ValueKind::Str => v is Str,
        ValueKind::UInt => v is UInt,
        ValueKind::Encrypted => encrypted_of(v) is Some,
    }
}

/// The value under the first of `keys` that is present with a value of the
/// right type, tried in order.
pub open spec fn first_fitting(obj: Seq<(Seq<char>, Json)>, keys: Seq<Seq<char>>, kind: ValueKind) -> Option<Json>
    decreases keys.len(),
{
    if keys.len() == 0 {
        None
    } else {
        match present(obj, keys[0]) {
            Some(v) => if fits(kind, v) {
                Some(v)
            } else {
                first_fitting(obj, keys.drop_first(), kind)
            },
            None => first_fitting(obj, keys.drop_first(), kind),
        }
    }
}

/// What the typed lookup finds has the right type.
pub proof fn lemma_first_fitting_fits(obj: Seq<(Seq<char>, Json)>, keys: Seq<Seq<char>>, kind: ValueKind)
    ensures
        first_fitting(obj, keys, kind) matches Some(v) ==> fits(kind, v),
    decreases keys.len(),
{
    if keys.len() > 0 {
        lemma_first_fitting_fits(obj, keys.drop_first(), kind);
    }
}

/// The value of a field: that of its first accepted key present with a value
/// of the right type.
pub open spec fn fitting_value(obj: Seq<(Seq<char>, Json)>, f: PreviewField, kind: ValueKind) -> Option<Json> {
    first_fitting(obj, field_keys(f), kind)
}

/// A string field: the first accepted key with a string value wins; where a
/// key is present but none holds a string, a type error.
pub open spec fn str_field(obj: Seq<(Seq<char>, Json)>, f: PreviewField) -> Result<
    Option<Seq<char>>,
    DecodeError,
> {
    match fitting_value(obj, f, ValueKind::Str) {
        Some(Json::Str(s)) => Ok(Some(s)),
        _ => if field_value(obj, f) is Some {
            Err(DecodeError::TypeMismatch(f))
        } else {
            Ok(None)
        },
    }
}

/// A number field: the first accepted key with an unsigned integer value
/// wins; where a key is present but none holds one, a type error.
pub open spec fn uint_field(obj: Seq<(Seq<char>, Json)>, f: PreviewField) -> Result<
    Option<u64>,
    DecodeError,
> {
    match fitting_value(obj, f, ValueKind::UInt) {
        Some(Json::UInt(n)) => Ok(Some(n)),
        _ => if field_value(obj, f) is Some {
            Err(DecodeError::TypeMismatch(f))
        } else {
            Ok(None)
        },
    }
}

/// The encrypted file that a value holds, where it is well formed.
pub open spec fn encrypted_of(v: Json) -> Option<EncryptedFileModel> {
    match v {
        Json::Object(o) => match (
            find(o, "url"@),
            find(o, "key"@),
            find(o, "iv"@),
            find(o, "hashes"@),
            find(o, "v"@),
        ) {
            (
                Some(Json::Str(url)),
                Some(Json::Object(key)),
                Some(Json::Str(iv)),
                Some(Json::Object(hashes)),
                Some(Json::Str(v)),
            ) => Some(EncryptedFileModel { url, key, iv, hashes, v }),
            _ => None,
        },
        _ => None,
    }
}

/// The image source of an object. An encrypted image wins over a plain one;
/// an encrypted image that is present but malformed is an error.
pub open spec fn source_of(obj: Seq<(Seq<char>, Json)>) -> Result<
    Option<ImageSourceModel>,
    DecodeError,
> {
    match fitting_value(obj, PreviewField::ImageEncryption, ValueKind::Encrypted) {
        Some(v) => Ok(Some(ImageSourceModel::EncryptedImage(encrypted_of(v)->0))),
        None => if field_value(obj, PreviewField::ImageEncryption) is Some {
            Err(DecodeError::MalformedEncryption)
        } else {
            match str_field(obj, PreviewField::ImageUrl) {
                Ok(Some(u)) => Ok(Some(ImageSourceModel::Url(u))),
                Ok(None) => Ok(None),
                Err(e) => Err(e),
            }
        },
    }
}

/// The image of an object. The source and the metadata are checked in that
/// order, whether or not a source is present; without a source there is no
/// image, and its metadata is dropped.
pub open spec fn image_of(obj: Seq<(Seq<char>, Json)>) -> Result<
    Option<PreviewImageModel>,
    DecodeError,
> {
    match (
        source_of(obj),
        uint_field(obj, PreviewField::ImageSize),
        uint_field(obj, PreviewField::ImageWidth),
        uint_field(obj, PreviewField::ImageHeight),
        str_field(obj, PreviewField::ImageType),
    ) {
        (Err(e), _, _, _, _) => Err(e),
        (_, Err(e), _, _, _) => Err(e),
        (_, _, Err(e), _, _) => Err(e),
        (_, _, _, Err(e), _) => Err(e),
        (_, _, _, _, Err(e)) => Err(e),
        (Ok(None), _, _, _, _) => Ok(None),
        (Ok(Some(source)), Ok(size), Ok(width), Ok(height), Ok(mimetype)) => Ok(
            Some(PreviewImageModel { source, size, width, height, mimetype }),
        ),
    }
}

/// The entry that an object holds, or the first error met, the fields taken
/// in the order of the table.
pub open spec fn preview_of(obj: Seq<(Seq<char>, Json)>) -> Result<UrlPreviewModel, DecodeError> {
    match (
        str_field(obj, PreviewField::MatchedUrl),
        str_field(obj, PreviewField::CanonicalUrl),
        str_field(obj, PreviewField::Title),
        str_field(obj, PreviewField::Description),
        image_of(obj),
    ) {
        (Err(e), _, _, _, _) => Err(e),
        (Ok(None), _, _, _, _) => Err(DecodeError::MissingField(PreviewField::MatchedUrl)),
        (_, Err(e), _, _, _) => Err(e),
        (_, _, Err(e), _, _) => Err(e),
        (_, _, _, Err(e), _) => Err(e),
        (_, _, _, _, Err(e)) => Err(e),
        (Ok(m), Ok(url), Ok(title), Ok(description), Ok(image)) => Ok(
            UrlPreviewModel { matched_url: m, url, title, description, image },
        ),
    }
}

// ---- Encoding ----

/// The models of two runs of entries, one after the other.
pub proof fn lemma_entries_model_concat(a: Seq<(String, JsonValue)>, b: Seq<(String, JsonValue)>)
    ensures
        entries_model(a + b) == entries_model(a) + entries_model(b),
{
    lemma_entries_model(a);
    lemma_entries_model(b);
    lemma_entries_model(a + b);
    assert(entries_model(a + b) =~= entries_model(a) + entries_model(b));
}

fn push_entry(out: &mut Vec<(String, JsonValue)>, key: &str, value: JsonValue)
    ensures
        entries_model(final(out)@) == entries_model(old(out)@).push((key@, value@)),
{
    let ghost before = out@;
    out.push((key.to_owned(), value));
    proof {
        assert(out@.drop_last() =~= before);
    }
}

fn push_str(out: &mut Vec<(String, JsonValue)>, f: PreviewField, v: &Option<String>)
    ensures
        entries_model(final(out)@) == with_str(entries_model(old(out)@), canonical(f), opt_str(*v)),
{
    if let Some(s) = v {
        push_entry(out, f.canonical_key(), JsonValue::Str(s.clone()));
    }
}

fn push_uint(out: &mut Vec<(String, JsonValue)>, f: PreviewField, v: Option<u64>)
    ensures
        entries_model(final(out)@) == with_uint(entries_model(old(out)@), canonical(f), v),
{
    if let Some(n) = v {
        push_entry(out, f.canonical_key(), JsonValue::UInt(n));
    }
}

impl EncryptedFile {
    /// The object that holds this encrypted file.
    pub fn encode(&self) -> (r: Vec<(String, JsonValue)>)
        ensures
            entries_model(r@) == encrypted_entries(self@),
    {
        let mut out: Vec<(String, JsonValue)> = Vec::new();
        push_entry(&mut out, "url", JsonValue::Str(self.url.clone()));
        push_entry(&mut out, "key", JsonValue::Object(crate::json::clone_entries(&self.key)));
        push_entry(&mut out, "iv", JsonValue::Str(self.iv.clone()));
        push_entry(&mut out, "hashes", JsonValue::Object(crate::json::clone_entries(&self.hashes)));
        push_entry(&mut out, "v", JsonValue::Str(self.v.clone()));
        assert(entries_model(out@) =~= encrypted_entries(self@));
        out
    }
}

impl PreviewImage {
    /// The entries of this image, to be merged into its entry's object.
    pub fn encode(&self) -> (r: Vec<(String, JsonValue)>)
        ensures
            entries_model(r@) == image_entries(self@),
    {
        let mut out: Vec<(String, JsonValue)> = Vec::new();
        match &self.source {
            PreviewImageSource::Url(u) => {
                push_entry(&mut out, PreviewField::ImageUrl.canonical_key(), JsonValue::Str(u.clone()));
            },
            PreviewImageSource::EncryptedImage(f) => {
                push_entry(
                    &mut out,
                    PreviewField::ImageEncryption.canonical_key(),
                    JsonValue::Object(f.encode()),
                );
            },
        }
        assert(entries_model(out@) =~= source_entries(self@.source));
        push_uint(&mut out, PreviewField::ImageSize, self.size);
        push_uint(&mut out, PreviewField::ImageWidth, self.width);
        push_uint(&mut out, PreviewField::ImageHeight, self.height);
        push_str(&mut out, PreviewField::ImageType, &self.mimetype);
        out
    }
}

impl UrlPreview {
    /// The flat object of this entry: its own fields, and those of its image
    /// merged in. Fields that are not given are left out.
    pub fn encode(&self) -> (r: Vec<(String, JsonValue)>)
        ensures
            entries_model(r@) == preview_entries(self@),
    {
        let mut out: Vec<(String, JsonValue)> = Vec::new();
        assert(entries_model(out@) =~= Seq::empty());
        push_str(&mut out, PreviewField::MatchedUrl, &self.matched_url);
        push_str(&mut out, PreviewField::CanonicalUrl, &self.url);
        push_str(&mut out, PreviewField::Title, &self.title);
        push_str(&mut out, PreviewField::Description, &self.description);
        if let Some(image) = &self.image {
            let mut rest = image.encode();
            let ghost a = out@;
            let ghost b = rest@;
            out.append(&mut rest);
            proof {
                lemma_entries_model_concat(a, b);
            }
        }
        out
    }
}

// ---- Decoding ----

fn fits_value(kind: ValueKind, v: &JsonValue) -> (r: bool)
    ensures
        r == fits(kind, v@),
{
    match kind {
        ValueKind::Str => match v {
            JsonValue::Str(_) => true,
            _ => false,
        },
        ValueKind::UInt => match v {
            JsonValue::UInt(_) => true,
            _ => false,
        },
        ValueKind::Encrypted => EncryptedFile::decode(v).is_some(),
    }
}

/// The value of a field: that of its first accepted key present with a value
/// of the right type.
fn fitting_entry<'a>(obj: &'a Vec<(String, JsonValue)>, f: PreviewField, kind: ValueKind) -> (r: Option<&'a JsonValue>)
    ensures
        opt_model(r) == fitting_value(entries_model(obj@), f, kind),
{
    let keys = f.accepted_keys();
    let ghost m = entries_model(obj@);
    let ghost ks = field_keys(f);
    let mut i: usize = 0;
    assert(ks.subrange(0, ks.len() as int) =~= ks);
    while i < keys.len()
        invariant
            i <= keys.len(),
            keys@.len() == ks.len(),
            forall|j: int| 0 <= j < keys@.len() ==> #[trigger] keys@[j]@ == ks[j],
            m == entries_model(obj@),
            ks == field_keys(f),
            first_fitting(m, ks, kind) == first_fitting(m, ks.subrange(i as int, ks.len() as int), kind),
        decreases keys.len() - i,
    {
        let ghost rest = ks.subrange(i as int, ks.len() as int);
        assert(rest.drop_first() =~= ks.subrange(i + 1, ks.len() as int));
        assert(rest[0] == ks[i as int]);
        if let Some(v) = present_entry(obj, keys[i]) {
            if fits_value(kind, v) {
                return Some(v);
            }
        }
        i += 1;
    }
    None
}

fn decode_str(obj: &Vec<(String, JsonValue)>, f: PreviewField) -> (r: Result<Option<String>, DecodeError>)
    ensures
        match r {
            Ok(o) => str_field(entries_model(obj@), f) == Ok::<Option<Seq<char>>, DecodeError>(opt_str(o)),
            Err(e) => str_field(entries_model(obj@), f) == Err::<Option<Seq<char>>, DecodeError>(e),
        },
{
    match fitting_entry(obj, f, ValueKind::Str) {
        Some(JsonValue::Str(s)) => Ok(Some(s.clone())),
        _ => if lookup_field(obj, f).is_some() {
            Err(DecodeError::TypeMismatch(f))
        } else {
            Ok(None)
        },
    }
}

fn decode_uint(obj: &Vec<(String, JsonValue)>, f: PreviewField) -> (r: Result<Option<u64>, DecodeError>)
    ensures
        match r {
            Ok(o) => uint_field(entries_model(obj@), f) == Ok::<Option<u64>, DecodeError>(o),
            Err(e) => uint_field(entries_model(obj@), f) == Err::<Option<u64>, DecodeError>(e),
        },
{
    match fitting_entry(obj, f, ValueKind::UInt) {
        Some(JsonValue::UInt(n)) => Ok(Some(*n)),
        _ => if lookup_field(obj, f).is_some() {
            Err(DecodeError::TypeMismatch(f))
        } else {
            Ok(None)
        },
    }
}

impl EncryptedFile {
    /// The encrypted file that a value holds: an object with a string `url`,
    /// an object `key`, a string `iv`, an object `hashes` and a string `v`.
    /// Other keys are ignored.
    pub fn decode(value: &JsonValue) -> (r: Option<EncryptedFile>)
        ensures
            match r {
                Some(f) => encrypted_of(value@) == Some(f@),
                None => encrypted_of(value@) is None,
            },
    {
        if let JsonValue::Object(o) = value {
            let url = find_entry(o, "url");
            let key = find_entry(o, "key");
            let iv = find_entry(o, "iv");
            let hashes = find_entry(o, "hashes");
            let v = find_entry(o, "v");
            match (url, key, iv, hashes, v) {
                (
                    Some(JsonValue::Str(url)),
                    Some(JsonValue::Object(key)),
                    Some(JsonValue::Str(iv)),
                    Some(JsonValue::Object(hashes)),
                    Some(JsonValue::Str(v)),
                ) => Some(
                    EncryptedFile {
                        url: url.clone(),
                        key: crate::json::clone_entries(key),
                        iv: iv.clone(),
                        hashes: crate::json::clone_entries(hashes),
                        v: v.clone(),
                    },
                ),
                _ => None,
            }
        } else {
            None
        }
    }
}

impl PreviewImageSource {
    /// The image source of an object. Where an encrypted image is present the
    /// plain reference is not read.
    pub fn decode(obj: &Vec<(String, JsonValue)>) -> (r: Result<Option<PreviewImageSource>, DecodeError>)
        ensures
            match r {
                Ok(Some(s)) => source_of(entries_model(obj@)) == Ok::<Option<ImageSourceModel>, DecodeError>(Some(s@)),
                Ok(None) => source_of(entries_model(obj@)) == Ok::<Option<ImageSourceModel>, DecodeError>(None),
                Err(e) => source_of(entries_model(obj@)) == Err::<Option<ImageSourceModel>, DecodeError>(e),
            },
    {
        proof {
            lemma_first_fitting_fits(
                entries_model(obj@),
                field_keys(PreviewField::ImageEncryption),
                ValueKind::Encrypted,
            );
        }
        match fitting_entry(obj, PreviewField::ImageEncryption, ValueKind::Encrypted) {
            Some(v) => match EncryptedFile::decode(v) {
                Some(f) => Ok(Some(PreviewImageSource::EncryptedImage(f))),
                None => Err(DecodeError::MalformedEncryption),
            },
            None => if lookup_field(obj, PreviewField::ImageEncryption).is_some() {
                Err(DecodeError::MalformedEncryption)
            } else {
                match decode_str(obj, PreviewField::ImageUrl) {
                    Ok(Some(u)) => Ok(Some(PreviewImageSource::Url(u))),
                    Ok(None) => Ok(None),
                    Err(e) => Err(e),
                }
            },
        }
    }
}

impl PreviewImage {
    /// The image that an object holds: none without a source, else the
    /// source with its metadata. Metadata of the wrong type is an error either
    /// way.
    pub fn decode(obj: &Vec<(String, JsonValue)>) -> (r: Result<Option<PreviewImage>, DecodeError>)
        ensures
            match r {
                Ok(i) => image_of(entries_model(obj@)) == Ok::<Option<PreviewImageModel>, DecodeError>(opt_image(i)),
                Err(e) => image_of(entries_model(obj@)) == Err::<Option<PreviewImageModel>, DecodeError>(e),
            },
    {
        let source = match PreviewImageSource::decode(obj) {
            Ok(s) => s,
            Err(e) => return Err(e),
        };
        let size = match decode_uint(obj, PreviewField::ImageSize) {
            Ok(n) => n,
            Err(e) => return Err(e),
        };
        let width = match decode_uint(obj, PreviewField::ImageWidth) {
            Ok(n) => n,
            Err(e) => return Err(e),
        };
        let height = match decode_uint(obj, PreviewField::ImageHeight) {
            Ok(n) => n,
            Err(e) => return Err(e),
        };
        let mimetype = match decode_str(obj, PreviewField::ImageType) {
            Ok(t) => t,
            Err(e) => return Err(e),
        };
        let source = match source {
            Some(s) => s,
            None => return Ok(None),
        };
        Ok(Some(PreviewImage { source, size, width, height, mimetype }))
    }
}

impl UrlPreview {
    /// The entry that a flat object holds. Each field is read under the first
    /// of its accepted keys that is present with a value of the right type;
    /// unknown keys and `null` values are ignored. It fails where the matched
    /// URL is absent, where a field is present but none of its keys holds a
    /// value of the right type (image metadata included, with or without a
    /// source), or where the encrypted image is present but malformed.
    pub fn decode(obj: &Vec<(String, JsonValue)>) -> (r: Result<UrlPreview, DecodeError>)
        ensures
            match r {
                Ok(p) => preview_of(entries_model(obj@)) == Ok::<UrlPreviewModel, DecodeError>(p@),
                Err(e) => preview_of(entries_model(obj@)) == Err::<UrlPreviewModel, DecodeError>(e),
            },
    {
        let matched_url = match decode_str(obj, PreviewField::MatchedUrl) {
            Ok(Some(m)) => m,
            Ok(None) => return Err(DecodeError::MissingField(PreviewField::MatchedUrl)),
            Err(e) => return Err(e),
        };
        let url = match decode_str(obj, PreviewField::CanonicalUrl) {
            Ok(u) => u,
            Err(e) => return Err(e),
        };
        let title = match decode_str(obj, PreviewField::Title) {
            Ok(t) => t,
            Err(e) => return Err(e),
        };
        let description = match decode_str(obj, PreviewField::Description) {
            Ok(d) => d,
            Err(e) => return Err(e),
        };
        let image = match PreviewImage::decode(obj) {
            Ok(i) => i,
            Err(e) => return Err(e),
        };
        Ok(UrlPreview { matched_url: Some(matched_url), url, title, description, image })
    }
}

// ---- Lists of entries ----

/// The models of a list of entries.
pub open spec fn previews_model(ps: Seq<UrlPreview>) -> Seq<UrlPreviewModel> {
    ps.map_values(|p: UrlPreview| p@)
}

/// The encoded list: one object per entry, in order.
pub open spec fn list_entries(ps: Seq<UrlPreviewModel>) -> Seq<Json> {
    ps.map_values(|p: UrlPreviewModel| Json::Object(preview_entries(p)))
}

/// The entries that a list of values holds, or the error of the first value
/// that is not one.
pub open spec fn items_of(items: Seq<Json>) -> Result<Seq<UrlPreviewModel>, DecodeError>
    decreases items.len(),
{
    if items.len() == 0 {
        Ok(Seq::empty())
    } else {
        match items_of(items.drop_last()) {
            Err(e) => Err(e),
            Ok(ps) => match items.last() {
                Json::Object(o) => match preview_of(o) {
                    Ok(p) => Ok(ps.push(p)),
                    Err(e) => Err(e),
                },
                _ => Err(DecodeError::TypeMismatch(PreviewField::UrlPreviews)),
            },
        }
    }
}

/// A list fails as its first failing prefix does.
pub proof fn lemma_items_prefix_err(items: Seq<Json>, k: int)
    requires
        0 <= k <= items.len(),
        items_of(items.subrange(0, k)) is Err,
    ensures
        items_of(items) == items_of(items.subrange(0, k)),
    decreases items.len() - k,
{
    if k == items.len() {
        assert(items.subrange(0, k) =~= items);
    } else {
        assert(items.subrange(0, k + 1).drop_last() =~= items.subrange(0, k));
        lemma_items_prefix_err(items, k + 1);
    }
}

/// The entries that a value holds: it must be an array of entry objects.
pub open spec fn list_of(v: Json) -> Result<Seq<UrlPreviewModel>, DecodeError> {
    match v {
        Json::Array(items) => items_of(items),
        _ => Err(DecodeError::TypeMismatch(PreviewField::UrlPreviews)),
    }
}

/// The entries of a message object: none where its list is absent.
pub open spec fn message_previews_of(message: Seq<(Seq<char>, Json)>) -> Result<
    Option<Seq<UrlPreviewModel>>,
    DecodeError,
> {
    match field_value(message, PreviewField::UrlPreviews) {
        None => Ok(None),
        Some(v) => match list_of(v) {
            Ok(ps) => Ok(Some(ps)),
            Err(e) => Err(e),
        },
    }
}

/// The array that holds a list of entries, one object each, in order.
pub fn encode_url_previews(previews: &Vec<UrlPreview>) -> (r: JsonValue)
    ensures
        r@ == Json::Array(list_entries(previews_model(previews@))),
{
    let mut out: Vec<JsonValue> = Vec::new();
    let mut i: usize = 0;
    while i < previews.len()
        invariant
            i <= previews.len(),
            values_model(out@) == list_entries(previews_model(previews@.subrange(0, i as int))),
        decreases previews.len() - i,
    {
        let ghost before = out@;
        let item = JsonValue::Object(previews[i].encode());
        out.push(item);
        proof {
            assert(out@.drop_last() =~= before);
            assert(list_entries(previews_model(previews@.subrange(0, i + 1))) =~= list_entries(
                previews_model(previews@.subrange(0, i as int)),
            ).push(item@));
        }
        i += 1;
    }
    assert(previews@.subrange(0, previews.len() as int) =~= previews@);
    JsonValue::Array(out)
}

/// The entries that a value holds: it must be an array of entry objects. An
/// empty array gives an empty list.
pub fn decode_url_previews(value: &JsonValue) -> (r: Result<Vec<UrlPreview>, DecodeError>)
    ensures
        match r {
            Ok(ps) => list_of(value@) == Ok::<Seq<UrlPreviewModel>, DecodeError>(previews_model(ps@)),
            Err(e) => list_of(value@) == Err::<Seq<UrlPreviewModel>, DecodeError>(e),
        },
{
    let items = match value {
        JsonValue::Array(items) => items,
        _ => return Err(DecodeError::TypeMismatch(PreviewField::UrlPreviews)),
    };
    let ghost m = values_model(items@);
    proof {
        lemma_values_model(items@);
    }
    let mut out: Vec<UrlPreview> = Vec::new();
    assert(m.subrange(0, 0) =~= Seq::<Json>::empty());
    assert(previews_model(out@) =~= Seq::<UrlPreviewModel>::empty());
    let mut i: usize = 0;
    while i < items.len()
        invariant
            i <= items.len(),
            *value == JsonValue::Array(*items),
            m == values_model(items@),
            m.len() == items.len(),
            forall|j: int| 0 <= j < items.len() ==> #[trigger] m[j] == items[j]@,
            items_of(m.subrange(0, i as int)) == Ok::<Seq<UrlPreviewModel>, DecodeError>(previews_model(out@)),
        decreases items.len() - i,
    {
        let ghost before = out@;
        assert(m.subrange(0, i + 1).drop_last() =~= m.subrange(0, i as int));
        let p = match &items[i] {
            JsonValue::Object(o) => match UrlPreview::decode(o) {
                Ok(p) => p,
                Err(e) => {
                    proof {
                        assert(m.subrange(0, i + 1).last() == m[i as int]);
                        lemma_items_prefix_err(m, i + 1);
                    }
                    return Err(e);
                },
            },
            _ => {
                proof {
                    assert(m.subrange(0, i + 1).last() == m[i as int]);
                    lemma_items_prefix_err(m, i + 1);
                }
                return Err(DecodeError::TypeMismatch(PreviewField::UrlPreviews));
            },
        };
        out.push(p);
        proof {
            assert(previews_model(out@) =~= previews_model(before).push(p@));
        }
        i += 1;
    }
    assert(m.subrange(0, items.len() as int) =~= m);
    Ok(out)
}

/// The entries of a message object, under its list key. The list being absent
/// gives `None`; an empty list gives an empty list.
pub fn url_previews_of(message: &Vec<(String, JsonValue)>) -> (r: Result<Option<Vec<UrlPreview>>, DecodeError>)
    ensures
        match r {
            Ok(Some(ps)) => message_previews_of(entries_model(message@))
                == Ok::<Option<Seq<UrlPreviewModel>>, DecodeError>(Some(previews_model(ps@))),
            Ok(None) => message_previews_of(entries_model(message@))
                == Ok::<Option<Seq<UrlPreviewModel>>, DecodeError>(None),
            Err(e) => message_previews_of(entries_model(message@))
                == Err::<Option<Seq<UrlPreviewModel>>, DecodeError>(e),
        },
{
    match lookup_field(message, PreviewField::UrlPreviews) {
        None => Ok(None),
        Some(v) => match decode_url_previews(v) {
            Ok(ps) => Ok(Some(ps)),
            Err(e) => Err(e),
        },
    }
}

} // verus!
