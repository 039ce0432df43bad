//! The key alias table: for each logical field, the key written on encode and
//! the keys read on decode, in order of precedence.
use vstd::prelude::*;

use crate::json::{entries_model, lookup, opt_model, present_entry, Json, JsonValue};

verus! {

/// A logical field of a URL preview entry, or the list of entries in a message.
#[derive(Clone, Copy, Debug, PartialEq, Eq, Structural)]
pub enum PreviewField {
    MatchedUrl,
    CanonicalUrl,
    Title,
    Description,
    ImageUrl,
    ImageEncryption,
    ImageSize,
    ImageWidth,
    ImageHeight,
    ImageType,
    UrlPreviews,
}

/// The keys accepted for a field, the canonical one first.
///
/// Lists of two are written as pushes, so that lookups over them unfold.
pub open spec fn field_keys(f: PreviewField) -> Seq<Seq<char>> {
    match f {
        PreviewField::MatchedUrl => Seq::empty().push("matrix:matched_url"@).push("matched_url"@),
        PreviewField::CanonicalUrl => seq!["og:url"@],
        PreviewField::Title => seq!["og:title"@],
        PreviewField::Description => seq!["og:description"@],
        PreviewField::ImageUrl => Seq::empty().push("og:image"@).push("og:image:url"@),
        PreviewField::ImageEncryption => Seq::empty()
            .push("beeper:image:encryption"@)
            .push("matrix:image:encryption"@),
        PreviewField::ImageSize => Seq::empty().push("matrix:image:size"@).push("og:image:size"@),
        PreviewField::ImageWidth => seq!["og:image:width"@],
        PreviewField::ImageHeight => seq!["og:image:height"@],
        PreviewField::ImageType => seq!["og:image:type"@],
        PreviewField::UrlPreviews => seq!["m.url_previews"@],
    }
}

/// The key that encoding writes for a field.
pub open spec fn canonical(f: PreviewField) -> Seq<char> {
    field_keys(f)[0]
}

/// The value of a field in an object: that of its first accepted key present.
pub open spec fn field_value(obj: Seq<(Seq<char>, Json)>, f: PreviewField) -> Option<Json> {
    lookup(obj, field_keys(f))
}

impl PreviewField {
    /// The key that encoding writes for this field.
    pub fn canonical_key(self) -> (r: &'static str)
        ensures
            r@ == canonical(self),
    {
        match self {
            PreviewField::MatchedUrl => "matrix:matched_url",
            PreviewField::CanonicalUrl => "og:url",
            PreviewField::Title => "og:title",
            PreviewField::Description => "og:description",
            PreviewField::ImageUrl => "og:image",
            PreviewField::ImageEncryption => "beeper:image:encryption",
            PreviewField::ImageSize => "matrix:image:size",
            PreviewField::ImageWidth => "og:image:width",
            PreviewField::ImageHeight => "og:image:height",
            PreviewField::ImageType => "og:image:type",
            PreviewField::UrlPreviews => "m.url_previews",
        }
    }

    /// The keys that decoding accepts for this field, in order of precedence.
    pub fn accepted_keys(self) -> (r: Vec<&'static str>)
        ensures
            r@.len() == field_keys(self).len(),
            forall|i: int| 0 <= i < r@.len() ==> #[trigger] r@[i]@ == field_keys(self)[i],
    {
        let mut r: Vec<&'static str> = Vec::new();
        r.push(self.canonical_key());
        match self {
            PreviewField::MatchedUrl => r.push("matched_url"),
            PreviewField::ImageUrl => r.push("og:image:url"),
            PreviewField::ImageEncryption => r.push("matrix:image:encryption"),
            PreviewField::ImageSize => r.push("og:image:size"),
            _ => {},
        }
        r
    }
}

/// The value of a field in an object: that of its first accepted key present.
pub fn lookup_field<'a>(obj: &'a Vec<(String, JsonValue)>, f: PreviewField) -> (r: Option<&'a JsonValue>)
    ensures
        opt_model(r) == field_value(entries_model(obj@), f),
{
    let keys = f.accepted_keys();
    let ghost m = entries_model(obj@);
    let ghost ks = field_keys(f);
    let mut i: usize = 0;
    assert(ks.subrange(0, ks.len() as int) =~= ks);
    while i < keys.len()
        invariant
            i <= keys.len(),
            keys@.len() == ks.len(),
            forall|j: int| 0 <= j < keys@.len() ==> #[trigger] keys@[j]@ == ks[j],
            m == entries_model(obj@),
            ks == field_keys(f),
            lookup(m, ks) == lookup(m, ks.subrange(i as int, ks.len() as int)),
        decreases keys.len() - i,
    {
        let ghost rest = ks.subrange(i as int, ks.len() as int);
        assert(rest.drop_first() =~= ks.subrange(i + 1, ks.len() as int));
        assert(rest[0] == ks[i as int]);
        let found = present_entry(obj, keys[i]);
        if found.is_some() {
            return found;
        }
        i += 1;
    }
    None
}

} // verus!
