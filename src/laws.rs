//! What holds of encoding and decoding together.
use vstd::prelude::*;

use crate::codec::{
    encrypted_entries, encrypted_of, first_fitting, fitting_value, image_entries, image_of,
    list_entries, list_of, own_entries, preview_entries, preview_of, previews_model, source_of,
    ValueKind,
};
use crate::json::{find, lookup, Json};
use crate::keys::{canonical, field_keys, field_value, PreviewField};
use crate::preview::{ImageSourceModel, UrlPreview, UrlPreviewModel};

verus! {

/// Looking a key up after one more entry: the earlier entries come first.
pub broadcast proof fn lemma_find_push(a: Seq<(Seq<char>, Json)>, e: (Seq<char>, Json), k: Seq<char>)
    ensures
        #[trigger] find(a.push(e), k) == (match find(a, k) {
            Some(v) => Some(v),
            None => if e.0 == k {
                Some(e.1)
            } else {
                None
            },
        }),
    decreases a.len(),
{
    if a.len() > 0 {
        assert(a.push(e).drop_first() =~= a.drop_first().push(e));
        lemma_find_push(a.drop_first(), e, k);
    } else {
        assert(a.push(e).drop_first() =~= Seq::<(Seq<char>, Json)>::empty());
        assert(find(Seq::<(Seq<char>, Json)>::empty(), k) is None);
        assert(a.push(e)[0] == e);
    }
}

/// Looking a key up in two runs of entries: the first run comes first.
pub broadcast proof fn lemma_find_concat(a: Seq<(Seq<char>, Json)>, b: Seq<(Seq<char>, Json)>, k: Seq<char>)
    ensures
        #[trigger] find(a + b, k) == (match find(a, k) {
            Some(v) => Some(v),
            None => find(b, k),
        }),
    decreases a.len(),
{
    if a.len() > 0 {
        assert((a + b).drop_first() =~= a.drop_first() + b);
        lemma_find_concat(a.drop_first(), b, k);
    } else {
        assert(a + b =~= b);
    }
}

/// The length of each key, and a character that tells apart keys of one length.
pub proof fn lemma_key_facts()
    ensures
        "matrix:matched_url"@.len() == 18,
        "matrix:matched_url"@[0] == 'm',
        "matched_url"@.len() == 11,
        "og:url"@.len() == 6,
        "og:title"@.len() == 8,
        "og:title"@[3] == 't',
        "og:description"@.len() == 14,
        "og:description"@[3] == 'd',
        "og:image"@.len() == 8,
        "og:image"@[3] == 'i',
        "og:image:url"@.len() == 12,
        "beeper:image:encryption"@.len() == 23,
        "beeper:image:encryption"@[0] == 'b',
        "matrix:image:encryption"@.len() == 23,
        "matrix:image:encryption"@[0] == 'm',
        "matrix:image:size"@.len() == 17,
        "og:image:size"@.len() == 13,
        "og:image:size"@[9] == 's',
        "og:image:width"@.len() == 14,
        "og:image:width"@[3] == 'i',
        "og:image:height"@.len() == 15,
        "og:image:type"@.len() == 13,
        "og:image:type"@[9] == 't',
        "m.url_previews"@.len() == 14,
        "m.url_previews"@[3] == 'r',
        "url"@.len() == 3,
        "url"@[0] == 'u',
        "key"@.len() == 3,
        "key"@[0] == 'k',
        "iv"@.len() == 2,
        "hashes"@.len() == 6,
        "v"@.len() == 1,
{
    reveal_strlit("matrix:matched_url");
    reveal_strlit("matched_url");
    reveal_strlit("og:url");
    reveal_strlit("og:title");
    reveal_strlit("og:description");
    reveal_strlit("og:image");
    reveal_strlit("og:image:url");
    reveal_strlit("beeper:image:encryption");
    reveal_strlit("matrix:image:encryption");
    reveal_strlit("matrix:image:size");
    reveal_strlit("og:image:size");
    reveal_strlit("og:image:width");
    reveal_strlit("og:image:height");
    reveal_strlit("og:image:type");
    reveal_strlit("m.url_previews");
    reveal_strlit("url");
    reveal_strlit("key");
    reveal_strlit("iv");
    reveal_strlit("hashes");
    reveal_strlit("v");
}

/// The value that encoding writes for a string that may be missing.
pub open spec fn str_json(o: Option<Seq<char>>) -> Option<Json> {
    match o {
        Some(s) => Some(Json::Str(s)),
        None => None,
    }
}

/// The value that encoding writes for a number that may be missing.
pub open spec fn uint_json(o: Option<u64>) -> Option<Json> {
    match o {
        Some(n) => Some(Json::UInt(n)),
        None => None,
    }
}

/// Looking a key up in the object of an encrypted file.
proof fn lemma_encrypted_fields(f: crate::preview::EncryptedFileModel, k: Seq<char>)
    ensures
        find(encrypted_entries(f), k) == (if k == "url"@ {
            Some(Json::Str(f.url))
        } else if k == "key"@ {
            Some(Json::Object(f.key))
        } else if k == "iv"@ {
            Some(Json::Str(f.iv))
        } else if k == "hashes"@ {
            Some(Json::Object(f.hashes))
        } else if k == "v"@ {
            Some(Json::Str(f.v))
        } else {
            None
        }),
{
    broadcast use lemma_find_push;

    lemma_key_facts();
}

/// Decoding the object of an encrypted file gives the file back.
pub proof fn lemma_encrypted_round_trip(f: crate::preview::EncryptedFileModel)
    ensures
        encrypted_of(Json::Object(encrypted_entries(f))) == Some(f),
{
    lemma_key_facts();
    lemma_encrypted_fields(f, "url"@);
    lemma_encrypted_fields(f, "key"@);
    lemma_encrypted_fields(f, "iv"@);
    lemma_encrypted_fields(f, "hashes"@);
    lemma_encrypted_fields(f, "v"@);
}

/// What the entries of an image hold under a key.
pub open spec fn image_value(i: crate::preview::PreviewImageModel, k: Seq<char>) -> Option<Json> {
    if k == canonical(PreviewField::ImageUrl) && i.source is Url {
        Some(Json::Str(i.source->Url_0))
    } else if k == canonical(PreviewField::ImageEncryption) && i.source is EncryptedImage {
        Some(Json::Object(encrypted_entries(i.source->EncryptedImage_0)))
    } else if k == canonical(PreviewField::ImageSize) {
        uint_json(i.size)
    } else if k == canonical(PreviewField::ImageWidth) {
        uint_json(i.width)
    } else if k == canonical(PreviewField::ImageHeight) {
        uint_json(i.height)
    } else if k == canonical(PreviewField::ImageType) {
        str_json(i.mimetype)
    } else {
        None
    }
}

/// What the entries of an entry's own fields hold under a key.
pub open spec fn own_value(p: UrlPreviewModel, k: Seq<char>) -> Option<Json> {
    if k == canonical(PreviewField::MatchedUrl) {
        str_json(p.matched_url)
    } else if k == canonical(PreviewField::CanonicalUrl) {
        str_json(p.url)
    } else if k == canonical(PreviewField::Title) {
        str_json(p.title)
    } else if k == canonical(PreviewField::Description) {
        str_json(p.description)
    } else {
        None
    }
}

/// What the encoding of an entry holds under a key.
pub open spec fn encoded_value(p: UrlPreviewModel, k: Seq<char>) -> Option<Json> {
    match own_value(p, k) {
        Some(v) => Some(v),
        None => match p.image {
            Some(i) => image_value(i, k),
            None => None,
        },
    }
}

proof fn lemma_image_find(i: crate::preview::PreviewImageModel, k: Seq<char>)
    ensures
        find(image_entries(i), k) == image_value(i, k),
{
    broadcast use lemma_find_push;

    lemma_key_facts();
}

proof fn lemma_own_find(p: UrlPreviewModel, k: Seq<char>)
    ensures
        find(own_entries(p), k) == own_value(p, k),
{
    broadcast use lemma_find_push;

    lemma_key_facts();
}

/// Decoding the entries of an image on their own gives the image back.
pub proof fn lemma_image_round_trip(i: crate::preview::PreviewImage)
    ensures
        image_of(image_entries(i@)) == Ok::<Option<crate::preview::PreviewImageModel>, crate::codec::DecodeError>(
            Some(i@),
        ),
{
    let m = i@;
    lemma_key_facts();
    reveal_with_fuel(lookup, 3);
    reveal_with_fuel(first_fitting, 3);
    lemma_image_find(m, "og:image"@);
    lemma_image_find(m, "og:image:url"@);
    lemma_image_find(m, "beeper:image:encryption"@);
    lemma_image_find(m, "matrix:image:encryption"@);
    lemma_image_find(m, "matrix:image:size"@);
    lemma_image_find(m, "og:image:size"@);
    lemma_image_find(m, "og:image:width"@);
    lemma_image_find(m, "og:image:height"@);
    lemma_image_find(m, "og:image:type"@);
    if let ImageSourceModel::EncryptedImage(f) = m.source {
        lemma_encrypted_round_trip(f);
    }
}

/// Looking a key up in the encoding of an entry.
pub proof fn lemma_encoded_find(p: UrlPreviewModel, k: Seq<char>)
    ensures
        find(preview_entries(p), k) == encoded_value(p, k),
{
    lemma_own_find(p, k);
    if let Some(i) = p.image {
        lemma_find_concat(own_entries(p), image_entries(i), k);
        lemma_image_find(i, k);
    }
}

/// Decoding the encoding of an entry gives the entry back, for every entry
/// with a matched URL.
pub proof fn lemma_round_trip(p: UrlPreview)
    requires
        p.matched_url is Some,
    ensures
        preview_of(preview_entries(p@)) == Ok::<UrlPreviewModel, crate::codec::DecodeError>(p@),
{
    let m = p@;
    lemma_key_facts();
    reveal_with_fuel(lookup, 3);
    reveal_with_fuel(first_fitting, 3);
    lemma_encoded_find(m, "matrix:matched_url"@);
    lemma_encoded_find(m, "matched_url"@);
    lemma_encoded_find(m, "og:url"@);
    lemma_encoded_find(m, "og:title"@);
    lemma_encoded_find(m, "og:description"@);
    lemma_encoded_find(m, "og:image"@);
    lemma_encoded_find(m, "og:image:url"@);
    lemma_encoded_find(m, "beeper:image:encryption"@);
    lemma_encoded_find(m, "matrix:image:encryption"@);
    lemma_encoded_find(m, "matrix:image:size"@);
    lemma_encoded_find(m, "og:image:size"@);
    lemma_encoded_find(m, "og:image:width"@);
    lemma_encoded_find(m, "og:image:height"@);
    lemma_encoded_find(m, "og:image:type"@);
    if let Some(i) = m.image {
        if let ImageSourceModel::EncryptedImage(f) = i.source {
            lemma_encrypted_round_trip(f);
        }
    }
}

/// Whether some entry of `obj` has the key `k`.
pub open spec fn has_key(obj: Seq<(Seq<char>, Json)>, k: Seq<char>) -> bool {
    exists|i: int| 0 <= i < obj.len() && #[trigger] obj[i].0 == k
}

/// A key that nothing is found under is the key of no entry.
pub proof fn lemma_find_none(obj: Seq<(Seq<char>, Json)>, k: Seq<char>)
    requires
        find(obj, k) is None,
    ensures
        !has_key(obj, k),
    decreases obj.len(),
{
    if obj.len() > 0 {
        lemma_find_none(obj.drop_first(), k);
        assert forall|i: int| 0 <= i < obj.len() implies #[trigger] obj[i].0 != k by {
            if i > 0 {
                assert(obj[i] == obj.drop_first()[i - 1]);
            }
        }
    }
}

/// Whether an entry leaves a field out.
pub open spec fn absent(p: UrlPreviewModel, f: PreviewField) -> bool {
    match f {
        PreviewField::MatchedUrl => p.matched_url is None,
        PreviewField::CanonicalUrl => p.url is None,
        PreviewField::Title => p.title is None,
        PreviewField::Description => p.description is None,
        PreviewField::ImageUrl => !(p.image is Some && p.image->0.source is Url),
        PreviewField::ImageEncryption => !(p.image is Some && p.image->0.source is EncryptedImage),
        PreviewField::ImageSize => p.image is None || p.image->0.size is None,
        PreviewField::ImageWidth => p.image is None || p.image->0.width is None,
        PreviewField::ImageHeight => p.image is None || p.image->0.height is None,
        PreviewField::ImageType => p.image is None || p.image->0.mimetype is None,
        PreviewField::UrlPreviews => true,
    }
}

/// Encoding an entry that leaves a field out writes none of that field's
/// keys.
pub proof fn lemma_omission(p: UrlPreview, f: PreviewField, j: int)
    requires
        absent(p@, f),
        0 <= j < field_keys(f).len(),
    ensures
        !has_key(preview_entries(p@), field_keys(f)[j]),
{
    lemma_key_facts();
    let k = field_keys(f)[j];
    lemma_encoded_find(p@, k);
    lemma_find_none(preview_entries(p@), k);
}

/// Encoding an entry never writes a key of the plain image reference together
/// with a key of the encrypted one.
pub proof fn lemma_one_source_key(p: UrlPreview, a: int, b: int)
    requires
        0 <= a < field_keys(PreviewField::ImageUrl).len(),
        0 <= b < field_keys(PreviewField::ImageEncryption).len(),
    ensures
        !(has_key(preview_entries(p@), field_keys(PreviewField::ImageUrl)[a]) && has_key(
            preview_entries(p@),
            field_keys(PreviewField::ImageEncryption)[b],
        )),
{
    if absent(p@, PreviewField::ImageUrl) {
        lemma_omission(p, PreviewField::ImageUrl, a);
    } else {
        lemma_omission(p, PreviewField::ImageEncryption, b);
    }
}

/// `obj` with the key `from` written `to` wherever it stands.
pub open spec fn rename_key(obj: Seq<(Seq<char>, Json)>, from: Seq<char>, to: Seq<char>) -> Seq<
    (Seq<char>, Json),
> {
    obj.map_values(
        |e: (Seq<char>, Json)|
            if e.0 == from {
                (to, e.1)
            } else {
                e
            },
    )
}

/// Looking a key up after a key was renamed to one that was not there.
pub proof fn lemma_find_rename(
    obj: Seq<(Seq<char>, Json)>,
    from: Seq<char>,
    to: Seq<char>,
    k: Seq<char>,
)
    requires
        from != to,
        find(obj, to) is None,
    ensures
        find(rename_key(obj, from, to), k) == (if k == to {
            find(obj, from)
        } else if k == from {
            None
        } else {
            find(obj, k)
        }),
    decreases obj.len(),
{
    if obj.len() > 0 {
        assert(rename_key(obj, from, to).drop_first() =~= rename_key(obj.drop_first(), from, to));
        lemma_find_rename(obj.drop_first(), from, to, k);
    }
}

/// Decoding reads a field under each of its accepted keys alike: an object
/// that gives a field under its canonical key alone decodes as the same
/// object with that key written in an older spelling.
pub proof fn lemma_alias_accepted(obj: Seq<(Seq<char>, Json)>, f: PreviewField, j: int)
    requires
        1 <= j < field_keys(f).len(),
        forall|i: int| 1 <= i < field_keys(f).len() ==> find(obj, #[trigger] field_keys(f)[i]) is None,
    ensures
        preview_of(rename_key(obj, canonical(f), field_keys(f)[j])) == preview_of(obj),
{
    lemma_key_facts();
    reveal_with_fuel(lookup, 3);
    reveal_with_fuel(first_fitting, 3);
    let from = canonical(f);
    let to = field_keys(f)[j];
    assert(find(obj, to) is None);
    let renamed = rename_key(obj, from, to);
    lemma_find_rename(obj, from, to, "matrix:matched_url"@);
    lemma_find_rename(obj, from, to, "matched_url"@);
    lemma_find_rename(obj, from, to, "og:url"@);
    lemma_find_rename(obj, from, to, "og:title"@);
    lemma_find_rename(obj, from, to, "og:description"@);
    lemma_find_rename(obj, from, to, "og:image"@);
    lemma_find_rename(obj, from, to, "og:image:url"@);
    lemma_find_rename(obj, from, to, "beeper:image:encryption"@);
    lemma_find_rename(obj, from, to, "matrix:image:encryption"@);
    lemma_find_rename(obj, from, to, "matrix:image:size"@);
    lemma_find_rename(obj, from, to, "og:image:size"@);
    lemma_find_rename(obj, from, to, "og:image:width"@);
    lemma_find_rename(obj, from, to, "og:image:height"@);
    lemma_find_rename(obj, from, to, "og:image:type"@);
    lemma_find_rename(obj, from, to, "m.url_previews"@);
    assert forall|g: PreviewField| #[trigger] field_value(renamed, g) == field_value(obj, g) by {}
    assert forall|g: PreviewField, kind: ValueKind| #[trigger] fitting_value(renamed, g, kind)
        == fitting_value(obj, g, kind) by {}
}

/// `obj` without the entries under the key `k`.
pub open spec fn remove_key(obj: Seq<(Seq<char>, Json)>, k: Seq<char>) -> Seq<(Seq<char>, Json)>
    decreases obj.len(),
{
    if obj.len() == 0 {
        obj
    } else if obj[0].0 == k {
        remove_key(obj.drop_first(), k)
    } else {
        remove_key(obj.drop_first(), k).insert(0, obj[0])
    }
}

/// Looking a key up after the entries under a key were removed.
pub proof fn lemma_find_remove(obj: Seq<(Seq<char>, Json)>, k: Seq<char>, k2: Seq<char>)
    ensures
        find(remove_key(obj, k), k2) == (if k2 == k {
            None
        } else {
            find(obj, k2)
        }),
    decreases obj.len(),
{
    if obj.len() > 0 {
        lemma_find_remove(obj.drop_first(), k, k2);
        if obj[0].0 != k {
            let r = remove_key(obj.drop_first(), k);
            assert(r.insert(0, obj[0]).drop_first() =~= r);
        }
    }
}

/// Where an object holds an encrypted image, its plain image reference is not
/// read: the object decodes as it does without the plain reference's keys, and
/// what it decodes to has the encrypted image as its source.
pub proof fn lemma_encrypted_wins(obj: Seq<(Seq<char>, Json)>)
    requires
        field_value(obj, PreviewField::ImageEncryption) is Some,
    ensures
        preview_of(obj) == preview_of(
            remove_key(remove_key(obj, canonical(PreviewField::ImageUrl)), field_keys(PreviewField::ImageUrl)[1]),
        ),
        preview_of(obj) is Ok ==> preview_of(obj)->Ok_0.image == Some(
            crate::preview::PreviewImageModel {
                source: ImageSourceModel::EncryptedImage(
                    encrypted_of(
                        fitting_value(obj, PreviewField::ImageEncryption, ValueKind::Encrypted)->0,
                    )->0,
                ),
                ..preview_of(obj)->Ok_0.image->0
            },
        ),
{
    lemma_key_facts();
    reveal_with_fuel(lookup, 3);
    reveal_with_fuel(first_fitting, 3);
    let once = remove_key(obj, "og:image"@);
    let twice = remove_key(once, "og:image:url"@);
    lemma_find_remove(obj, "og:image"@, "matrix:matched_url"@);
    lemma_find_remove(once, "og:image:url"@, "matrix:matched_url"@);
    lemma_find_remove(obj, "og:image"@, "matched_url"@);
    lemma_find_remove(once, "og:image:url"@, "matched_url"@);
    lemma_find_remove(obj, "og:image"@, "og:url"@);
    lemma_find_remove(once, "og:image:url"@, "og:url"@);
    lemma_find_remove(obj, "og:image"@, "og:title"@);
    lemma_find_remove(once, "og:image:url"@, "og:title"@);
    lemma_find_remove(obj, "og:image"@, "og:description"@);
    lemma_find_remove(once, "og:image:url"@, "og:description"@);
    lemma_find_remove(obj, "og:image"@, "og:image"@);
    lemma_find_remove(once, "og:image:url"@, "og:image"@);
    lemma_find_remove(obj, "og:image"@, "og:image:url"@);
    lemma_find_remove(once, "og:image:url"@, "og:image:url"@);
    lemma_find_remove(obj, "og:image"@, "beeper:image:encryption"@);
    lemma_find_remove(once, "og:image:url"@, "beeper:image:encryption"@);
    lemma_find_remove(obj, "og:image"@, "matrix:image:encryption"@);
    lemma_find_remove(once, "og:image:url"@, "matrix:image:encryption"@);
    lemma_find_remove(obj, "og:image"@, "matrix:image:size"@);
    lemma_find_remove(once, "og:image:url"@, "matrix:image:size"@);
    lemma_find_remove(obj, "og:image"@, "og:image:size"@);
    lemma_find_remove(once, "og:image:url"@, "og:image:size"@);
    lemma_find_remove(obj, "og:image"@, "og:image:width"@);
    lemma_find_remove(once, "og:image:url"@, "og:image:width"@);
    lemma_find_remove(obj, "og:image"@, "og:image:height"@);
    lemma_find_remove(once, "og:image:url"@, "og:image:height"@);
    lemma_find_remove(obj, "og:image"@, "og:image:type"@);
    lemma_find_remove(once, "og:image:url"@, "og:image:type"@);
    lemma_find_remove(obj, "og:image"@, "m.url_previews"@);
    lemma_find_remove(once, "og:image:url"@, "m.url_previews"@);
    assert forall|g: PreviewField| g != PreviewField::ImageUrl implies #[trigger] field_value(twice, g)
        == field_value(obj, g) by {}
    assert forall|g: PreviewField, kind: ValueKind| g != PreviewField::ImageUrl implies #[trigger] fitting_value(
        twice,
        g,
        kind,
    ) == fitting_value(obj, g, kind) by {}
    assert(source_of(twice) == source_of(obj));
}

/// Decoding the encoding of a list of entries gives the list back, for every
/// list whose entries all have a matched URL.
pub proof fn lemma_list_round_trip(ps: Seq<UrlPreview>)
    requires
        forall|i: int| 0 <= i < ps.len() ==> (#[trigger] ps[i]).matched_url is Some,
    ensures
        list_of(Json::Array(list_entries(previews_model(ps)))) == Ok::<
            Seq<UrlPreviewModel>,
            crate::codec::DecodeError,
        >(previews_model(ps)),
    decreases ps.len(),
{
    if ps.len() > 0 {
        let init = ps.drop_last();
        assert forall|i: int| 0 <= i < init.len() implies (#[trigger] init[i]).matched_url is Some by {
            assert(init[i] == ps[i]);
        }
        lemma_list_round_trip(init);
        assert(ps[ps.len() - 1] == ps.last());
        lemma_round_trip(ps.last());
        assert(list_entries(previews_model(ps)).drop_last() =~= list_entries(previews_model(init)));
        assert(previews_model(ps) =~= previews_model(init).push(ps.last()@));
    } else {
        assert(list_entries(previews_model(ps)) =~= Seq::<Json>::empty());
        assert(previews_model(ps) =~= Seq::<UrlPreviewModel>::empty());
    }
}

} // verus!
