use floaty::icon_store::{collect_referenced, icon_texts, migrate_json, sweep_action, JsonTree, SweepAction};
use floaty::icons::{
    asset_url, base64_encode, is_low_res, is_missing, is_stored_url, pixel_size, png_data_body_of, store_b64,
};

fn obj(fields: Vec<(&str, JsonTree)>) -> JsonTree {
    JsonTree::Object(fields.into_iter().map(|(k, v)| (k.to_string(), v)).collect())
}

fn text(s: &str) -> JsonTree {
    JsonTree::Text(s.to_string())
}

fn field<'a>(t: &'a JsonTree, key: &str) -> &'a JsonTree {
    match t {
        JsonTree::Object(es) => &es.iter().find(|(k, _)| k == key).unwrap().1,
        _ => panic!("not an object"),
    }
}

fn as_text(t: &JsonTree) -> &str {
    match t {
        JsonTree::Text(s) => s,
        _ => panic!("not a string"),
    }
}

fn first_item(t: &JsonTree) -> &JsonTree {
    match t {
        JsonTree::Array(xs) => &xs[0],
        _ => panic!("not an array"),
    }
}

#[test]
fn only_the_icons_the_records_mention_are_referenced() {
    let kept = asset_url("C:\\Users\\me\\AppData\\Roaming\\floaty\\icons\\ab12.png");
    let data = obj(vec![("icon", text(&kept)), ("items", JsonTree::Array(vec![obj(vec![("icon", text("none"))])]))]);
    let mut referenced = Vec::new();
    collect_referenced(&data, &mut referenced);
    assert_eq!(referenced, vec!["C:\\Users\\me\\AppData\\Roaming\\floaty\\icons\\ab12.png".to_string()]);
}

#[test]
fn icons_are_found_at_any_depth_in_document_order() {
    let data = obj(vec![
        ("icon", text("a")),
        ("name", text("icon")),
        ("items", JsonTree::Array(vec![
            obj(vec![("icon", text("b")), ("size", JsonTree::Scalar("3".to_string()))]),
            obj(vec![("nested", obj(vec![("icon", text("c"))]))]),
        ])),
        // an icon field that is not a string is no icon, and is not looked into
        ("icon", obj(vec![("icon", text("d"))])),
    ]);
    assert_eq!(icon_texts(&data), vec!["a".to_string(), "b".to_string(), "c".to_string()]);
}

fn png_bytes(w: u32, h: u32) -> Vec<u8> {
    let mut bytes = b"\x89PNG\r\n\x1a\n".to_vec();
    bytes.extend_from_slice(&13u32.to_be_bytes());
    bytes.extend_from_slice(b"IHDR");
    bytes.extend_from_slice(&w.to_be_bytes());
    bytes.extend_from_slice(&h.to_be_bytes());
    bytes.extend_from_slice(&[8, 6, 0, 0, 0]);
    bytes.extend_from_slice(&[0, 0, 0, 0]);
    bytes.extend_from_slice(&[0u8; 64]);
    bytes
}

fn data_url(bytes: &[u8]) -> String {
    format!("data:image/png;base64,{}", base64_encode(bytes))
}

/// What the icon store does with a PNG data url: the bytes it would write, and the url of
/// the file (writing it is the caller's).
fn store(icons_dir: &str, icon: &str) -> (Vec<u8>, String) {
    let body = png_data_body_of(icon).unwrap();
    let (bytes, plan) = store_b64(Some(icons_dir), &body).unwrap();
    (bytes, plan.url)
}

#[test]
fn a_legacy_data_url_still_reads_and_migrates_once() {
    let dir = r"C:\Users\me\AppData\Roaming\floaty\icons";
    let bytes = png_bytes(48, 48);
    let legacy = data_url(&bytes);
    // readable while it is still inlined
    assert_eq!(pixel_size(&legacy, None), Some((48, 48)));
    assert!(is_low_res(&legacy, None), "48px is low-res");
    assert!(!is_missing(&legacy, None));

    let second = data_url(&png_bytes(256, 256));
    let mut data = obj(vec![
        ("name", text("Arc")),
        ("icon", text(&legacy)),
        ("items", JsonTree::Array(vec![obj(vec![("target", text("a.lnk")), ("icon", text(&second))])])),
    ]);
    let (written, url1) = store(dir, &legacy);
    let (_, url2) = store(dir, &second);
    let stored = vec![(legacy.clone(), Some(url1.clone())), (second.clone(), Some(url2.clone()))];
    assert_eq!(migrate_json(&mut data, &stored), 2, "both fields move");
    let moved = as_text(field(&data, "icon")).to_string();
    assert!(is_stored_url(&moved));
    assert!(is_stored_url(as_text(field(first_item(field(&data, "items")), "icon"))));
    assert_eq!(moved, url1);
    assert_eq!(written, bytes);
    assert_eq!(pixel_size(&moved, Some(&written)), Some((48, 48)));
    // idempotent: a second pass changes nothing and moves nothing
    assert_eq!(migrate_json(&mut data, &stored), 0);
    assert_eq!(as_text(field(&data, "icon")), moved);
}

#[test]
fn an_icon_the_store_could_not_take_stays_inlined() {
    let legacy = "data:image/png;base64,AAAA".to_string();
    let svg = "data:image/svg+xml;base64,PHN2Zy8+".to_string();
    let mut data = obj(vec![("icon", text(&legacy)), ("other", obj(vec![("icon", text(&svg))]))]);
    let stored = vec![(legacy.clone(), None), (svg.clone(), Some(asset_url("C:\\x.png")))];
    assert_eq!(migrate_json(&mut data, &stored), 0);
    assert_eq!(as_text(field(&data, "icon")), legacy);
    assert_eq!(as_text(field(field(&data, "other"), "icon")), svg, "only PNGs are stored");
    // a store that answers with something other than a stored url is not believed
    let bogus = vec![(legacy.clone(), Some("C:\\x.png".to_string()))];
    assert_eq!(migrate_json(&mut data, &bogus), 0);
    assert_eq!(as_text(field(&data, "icon")), legacy);
}

#[test]
fn a_sweep_keeps_what_is_mentioned_and_clears_half_writes() {
    let referenced = vec!["C:/icons/kept.png".to_string()];
    assert_eq!(sweep_action("C:\\icons\\kept.png", &referenced), SweepAction::Keep);
    assert_eq!(sweep_action("C:\\icons\\orphan.png", &referenced), SweepAction::Remove);
    assert_eq!(sweep_action("C:\\icons\\leftover.png.tmp", &referenced), SweepAction::ClearTemp);
    assert_eq!(sweep_action("C:\\icons\\notes.txt", &referenced), SweepAction::Keep);
    assert_eq!(sweep_action("C:\\icons\\README", &referenced), SweepAction::Keep);
}
