use url_preview::{url_previews_of, EncryptedFile, JsonValue, PreviewImage, PreviewImageSource, UrlPreview};

fn to_library(v: &serde_json::Value) -> JsonValue {
    match v {
        serde_json::Value::Null => JsonValue::Null,
        serde_json::Value::Bool(b) => JsonValue::Bool(*b),
        serde_json::Value::Number(n) => match n.as_u64() {
            Some(u) => JsonValue::UInt(u),
            None => JsonValue::Num(n.to_string()),
        },
        serde_json::Value::String(s) => JsonValue::Str(s.clone()),
        serde_json::Value::Array(items) => JsonValue::Array(items.iter().map(to_library).collect()),
        serde_json::Value::Object(map) => {
            JsonValue::Object(map.iter().map(|(k, v)| (k.clone(), to_library(v))).collect())
        }
    }
}

fn from_library(v: &JsonValue) -> serde_json::Value {
    match v {
        JsonValue::Null => serde_json::Value::Null,
        JsonValue::Bool(b) => serde_json::Value::Bool(*b),
        JsonValue::UInt(n) => serde_json::Value::from(*n),
        JsonValue::Num(s) => serde_json::from_str(s).unwrap(),
        JsonValue::Str(s) => serde_json::Value::String(s.clone()),
        JsonValue::Array(items) => serde_json::Value::Array(items.iter().map(from_library).collect()),
        JsonValue::Object(entries) => {
            let mut map = serde_json::Map::new();
            for (k, v) in entries {
                map.insert(k.clone(), from_library(v));
            }
            serde_json::Value::Object(map)
        }
    }
}

fn object(text: &str) -> Vec<(String, JsonValue)> {
    let value: serde_json::Value = serde_json::from_str(text).unwrap();
    match to_library(&value) {
        JsonValue::Object(entries) => entries,
        _ => panic!("not an object"),
    }
}

fn dummy_jwt() -> Vec<(String, JsonValue)> {
    vec![
        ("kty".to_owned(), JsonValue::Str("oct".to_owned())),
        (
            "key_ops".to_owned(),
            JsonValue::Array(vec![
                JsonValue::Str("encrypt".to_owned()),
                JsonValue::Str("decrypt".to_owned()),
            ]),
        ),
        ("alg".to_owned(), JsonValue::Str("A256CTR".to_owned())),
        (
            "k".to_owned(),
            JsonValue::Str(
                "AAAAAAAAAAAAAAAAAAAAAAAAAAAAAAAAAAAAAAAAAAAAAAAAAAAAAAAAAAAAAAAAAAAAAAAAAAAAAAAAAAAAAA"
                    .to_owned(),
            ),
        ),
        ("ext".to_owned(), JsonValue::Bool(true)),
    ]
}

fn encrypted_file() -> EncryptedFile {
    EncryptedFile {
        url: "mxc://localhost/encryptedfile".to_owned(),
        key: dummy_jwt(),
        iv: "AQEBAQEBAQEBAQEB".to_owned(),
        hashes: vec![("sha256".to_owned(), JsonValue::Str("AQEBAQEBAQEBAQ".to_owned()))],
        v: "v2".to_owned(),
    }
}

#[test]
fn created_preview_image_to_json() {
    let expected_result: serde_json::Value = serde_json::from_str(
        r#"{
                  "og:image": "mxc://maunium.net/zeHhTqqUtUSUTUDxQisPdwZO"}"#,
    )
    .unwrap();

    let preview = PreviewImage::plain("mxc://maunium.net/zeHhTqqUtUSUTUDxQisPdwZO".to_owned());

    assert_eq!(from_library(&JsonValue::Object(preview.encode())), expected_result);

    let encrypted_result: serde_json::Value = serde_json::from_str(
        r#"{
            "beeper:image:encryption": {
                "hashes" : {
                    "sha256": "AQEBAQEBAQEBAQ"
                },
                "iv": "AQEBAQEBAQEBAQEB",
                "key": {
                    "alg": "A256CTR",
                    "ext": true,
                    "k": "AAAAAAAAAAAAAAAAAAAAAAAAAAAAAAAAAAAAAAAAAAAAAAAAAAAAAAAAAAAAAAAAAAAAAAAAAAAAAAAAAAAAAA",
                    "key_ops": [
                        "encrypt",
                        "decrypt"
                    ],
                    "kty": "oct"
                },
                "v" : "v2",
                "url": "mxc://localhost/encryptedfile"
            }
        }"#,
    )
    .unwrap();

    let preview = PreviewImage::encrypted(encrypted_file());

    assert_eq!(from_library(&JsonValue::Object(preview.encode())), encrypted_result);
}

#[test]
fn parsing_regular_example() {
    let normal_preview = object(
        r#"{
              "msgtype": "m.text",
              "body": "https://matrix.org",
              "m.url_previews": [
                {
                  "matrix:matched_url": "https://matrix.org",
                  "matrix:image:size": 16588,
                  "og:description": "Matrix, the open protocol for secure decentralised communications",
                  "og:image": "mxc://maunium.net/zeHhTqqUtUSUTUDxQisPdwZO",
                  "og:image:height": 400,
                  "og:image:type": "image/jpeg",
                  "og:image:width": 800,
                  "og:title": "Matrix.org",
                  "og:url": "https://matrix.org/"
                }
              ],
              "m.mentions": {}
            }"#,
    );

    let url_previews = url_previews_of(&normal_preview).unwrap();
    let previews = url_previews.expect("No url previews found");
    assert_eq!(previews.len(), 1);
    let UrlPreview { image, matched_url, title, url, description, .. } = previews.first().unwrap();
    assert_eq!(matched_url.as_ref().unwrap(), "https://matrix.org");
    assert_eq!(title.as_ref().unwrap(), "Matrix.org");
    assert_eq!(
        description.as_ref().unwrap(),
        "Matrix, the open protocol for secure decentralised communications"
    );
    assert_eq!(url.as_ref().unwrap(), "https://matrix.org/");

    // Check the preview image parsed:
    let PreviewImage { size, height, width, mimetype, source, .. } = image.clone().unwrap();
    assert_eq!(size.unwrap(), 16588);
    let PreviewImageSource::Url(url) = source else {
        panic!("Not a URL image");
    };
    assert_eq!(url.clone(), "mxc://maunium.net/zeHhTqqUtUSUTUDxQisPdwZO".to_owned());
    assert_eq!(height.unwrap(), 400);
    assert_eq!(width.unwrap(), 800);
    assert_eq!(mimetype, Some("image/jpeg".to_owned()));
}

#[test]
fn parsing_example_no_previews() {
    let normal_preview = object(
        r#"{
                      "msgtype": "m.text",
                      "body": "https://matrix.org",
                      "m.url_previews": [],
                      "m.mentions": {}
        }"#,
    );
    let url_previews = url_previews_of(&normal_preview).unwrap();
    assert!(url_previews.clone().unwrap().is_empty(), "Unexpectedly found url previews");
}

#[test]
fn parsing_example_empty_previews() {
    let normal_preview = object(
        r#"{
                "msgtype": "m.text",
                "body": "https://matrix.org",
                "m.url_previews": [
                  {
                    "matrix:matched_url": "https://matrix.org"
                  }
                ],
                "m.mentions": {}
        }"#,
    );

    let url_previews = url_previews_of(&normal_preview).unwrap();
    let previews = url_previews.expect("No url previews found");
    assert_eq!(previews.len(), 1);
    let preview = previews.first().unwrap();
    assert_eq!(preview.matched_url.as_ref().unwrap(), "https://matrix.org");
    assert!(!preview.contains_preview());
}

#[test]
fn parsing_encrypted_image_example() {
    let normal_preview = object(
        r#"{
              "msgtype": "m.text",
              "body": "https://matrix.org",
              "m.url_previews": [
                {
                    "matrix:matched_url": "https://matrix.org",
                    "og:title": "Matrix.org",
                    "og:url": "https://matrix.org/",
                    "og:description": "Matrix, the open protocol for secure decentralised communications",
                    "matrix:image:size": 16588,
                    "og:image:height": 400,
                    "og:image:type": "image/jpeg",
                    "og:image:width": 800,
                    "beeper:image:encryption": {
                        "key": {
                            "k": "AAAAAAAAAAAAAAAAAAAAAAAAAAAAAAAAAAAAAA",
                            "alg": "A256CTR",
                            "ext": true,
                            "kty": "oct",
                            "key_ops": [
                                "encrypt",
                                "decrypt"
                            ]
                        },
                        "iv": "AQEBAQEBAQEBAQEB",
                        "hashes": {
                            "sha256": "AQEBAQEBAQEBAQ"
                        },
                        "v": "v2",
                        "url": "mxc://beeper.com/53207ac52ce3e2c722bb638987064bfdc0cc257b"
                    }
                }
              ],
              "m.mentions": {}
            }"#,
    );

    let url_previews = url_previews_of(&normal_preview).unwrap();
    let previews = url_previews.expect("No url previews found");
    assert_eq!(previews.len(), 1);
    let UrlPreview { image, matched_url, title, url, description, .. } = previews.first().unwrap();
    assert_eq!(matched_url.as_ref().unwrap(), "https://matrix.org");
    assert_eq!(title.as_ref().unwrap(), "Matrix.org");
    assert_eq!(
        description.as_ref().unwrap(),
        "Matrix, the open protocol for secure decentralised communications"
    );
    assert_eq!(url.as_ref().unwrap(), "https://matrix.org/");

    // Check the preview image parsed:
    let PreviewImage { size, height, width, mimetype, source, .. } = image.clone().unwrap();

    assert_eq!(size.unwrap(), 16588);
    let PreviewImageSource::EncryptedImage(encrypted_image) = source else {
        panic!("Not an encrypted image");
    };
    assert_eq!(
        encrypted_image.clone().url,
        "mxc://beeper.com/53207ac52ce3e2c722bb638987064bfdc0cc257b".to_owned()
    );
    assert_eq!(height.unwrap(), 400);
    assert_eq!(width.unwrap(), 800);
    assert_eq!(mimetype, Some("image/jpeg".to_owned()));
}

#[test]
fn parsing_extensible_example() {
    let normal_preview = object(
        r#"{
              "m.text": [
                {"body": "matrix.org/support"}
              ],
              "m.url_previews": [
                {
                  "matrix:matched_url": "matrix.org/support",
                  "matrix:image:size": 16588,
                  "og:description": "Matrix, the open protocol for secure decentralised communications",
                  "og:image": "mxc://maunium.net/zeHhTqqUtUSUTUDxQisPdwZO",
                  "og:image:height": 400,
                  "og:image:type": "image/jpeg",
                  "og:image:width": 800,
                  "og:title": "Support Matrix",
                  "og:url": "https://matrix.org/support/"
                }
              ],
              "m.mentions": {}
            }"#,
    );

    let url_previews = url_previews_of(&normal_preview).unwrap();
    let previews = url_previews.expect("No url previews found");
    assert_eq!(previews.len(), 1);
    let preview = previews.first().unwrap();
    assert!(preview.contains_preview());
    let UrlPreview { image, matched_url, title, url, description, .. } = preview;
    assert_eq!(matched_url.as_ref().unwrap(), "matrix.org/support");
    assert_eq!(title.as_ref().unwrap(), "Support Matrix");
    assert_eq!(
        description.as_ref().unwrap(),
        "Matrix, the open protocol for secure decentralised communications"
    );
    assert_eq!(url.as_ref().unwrap(), "https://matrix.org/support/");

    // Check the preview image parsed:
    let PreviewImage { size, height, width, mimetype, source, .. } = image.clone().unwrap();
    assert_eq!(size.unwrap(), 16588);
    let PreviewImageSource::Url(url) = source else {
        panic!("Not a URL image");
    };
    assert_eq!(url.clone(), "mxc://maunium.net/zeHhTqqUtUSUTUDxQisPdwZO".to_owned());
    assert_eq!(height.unwrap(), 400);
    assert_eq!(width.unwrap(), 800);
    assert_eq!(mimetype, Some("image/jpeg".to_owned()));
}
