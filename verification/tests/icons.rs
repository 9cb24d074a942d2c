use floaty::icons::{
    asset_url, base64_decode, base64_decode_prefix, base64_encode, fingerprint, is_low_res,
    is_missing, is_stored_url, migrate_one, path_from_url, pixel_size, store_b64,
    store_b64_or_inline, store_or_inline, store_plan, store_url, try_extract_png_from_ico_bytes,
    IconDir,
};

fn png_bytes(w: u32, h: u32) -> Vec<u8> {
    let mut bytes = b"\x89PNG\r\n\x1a\n".to_vec();
    bytes.extend_from_slice(&13u32.to_be_bytes());
    bytes.extend_from_slice(b"IHDR");
    bytes.extend_from_slice(&w.to_be_bytes());
    bytes.extend_from_slice(&h.to_be_bytes());
    bytes.extend_from_slice(&[8, 6, 0, 0, 0]);
    bytes.extend_from_slice(&[0, 0, 0, 0]);
    bytes.extend_from_slice(&[0u8; 64]);
    bytes
}

fn data_url(bytes: &[u8]) -> String {
    format!("data:image/png;base64,{}", base64_encode(bytes))
}

#[test]
fn base64_round_trips_and_tolerates_padding() {
    assert_eq!(base64_encode(b"hello world"), "aGVsbG8gd29ybGQ=");
    for raw in [b"".to_vec(), b"a".to_vec(), b"ab".to_vec(), b"abc".to_vec()] {
        let text = base64_encode(&raw);
        assert_eq!(base64_decode(&text).unwrap(), raw, "{text}");
    }
    assert_eq!(base64_decode("aGVs\nbG8g\nd29y bGQ=").unwrap(), b"hello world");
    assert!(base64_decode("not base64!!").is_none());
}

#[test]
fn the_asset_url_is_what_the_webview_asks_for() {
    let path = r"C:\Users\e\AppData\Roaming\com.floaty.app\icons\ab.png";
    let url = asset_url(path);
    assert_eq!(
        url,
        "http://asset.localhost/C%3A%5CUsers%5Ce%5CAppData%5CRoaming%5Ccom.floaty.app%5Cicons%5Cab.png"
    );
    assert_eq!(path_from_url(&url).unwrap(), path);
    assert!(asset_url("/tmp/a b.png").contains("%20"));
}

#[test]
fn store_url_moves_a_png_data_url_into_a_file_and_leaves_the_rest_alone() {
    let bytes = png_bytes(256, 256);
    let legacy = data_url(&bytes);
    let plan = store_plan(r"C:\icons", &bytes);
    let stored = store_url(&legacy, Some(plan.url.clone()));
    assert!(is_stored_url(&stored), "a png data url becomes a file: {stored}");
    assert_eq!(stored, plan.url);
    assert_eq!(store_url(&stored, None), stored);
    assert_eq!(store_url("none", None), "none");
    assert_eq!(store_url("", None), "");
    let svg = "data:image/svg+xml;base64,PHN2Zy8+";
    assert_eq!(store_url(svg, None), svg, "only PNGs are stored; anything else is left as it is");
    // a png the store could not take stays inlined, never dropped
    assert_eq!(store_url(&legacy, None), legacy);
    assert_eq!(migrate_one(&legacy, None), None);
}

#[test]
fn an_icon_that_cannot_be_stored_is_inlined_instead_of_lost() {
    let bytes = png_bytes(256, 256);
    let inline = format!("data:image/png;base64,{}", base64_encode(&bytes));
    assert_eq!(pixel_size(&inline, None), Some((256, 256)));
    assert!(!is_missing(&inline, None));
    assert!(store_b64(Some(r"C:\icons"), "not base64!!").is_none());
    assert!(store_b64_or_inline(None, "not base64!!").starts_with("data:"));
}

#[test]
fn only_missing_or_unreadable_icons_count_as_missing() {
    assert!(is_missing("", None));
    assert!(is_missing("none", None));
    assert!(is_missing("data:image/png;base64,not a png at all", None));
    assert!(is_missing(r"C:\nope\not-there.png", None));
    let small = data_url(&png_bytes(32, 32));
    assert!(!is_missing(&small, None));
    assert!(is_low_res(&small, None));
    let big = data_url(&png_bytes(256, 256));
    assert!(!is_missing(&big, None));
    assert!(!is_low_res(&big, None));
}

#[test]
fn a_stored_url_is_only_as_real_as_its_file() {
    let bytes = png_bytes(256, 256);
    let plan = store_plan(r"C:\icons", &bytes);
    assert!(!is_missing(&plan.url, Some(&bytes)));
    assert_eq!(pixel_size(&plan.url, Some(&bytes)), Some((256, 256)));
    assert!(is_missing(&plan.url, None), "the file is what makes an icon real");
    assert!(is_low_res(&plan.url, None));
}

#[test]
fn equal_bytes_are_one_file_with_a_scratch_name_beside_it() {
    let a = store_plan(r"C:\icons", &png_bytes(256, 256));
    let b = store_plan(r"C:\icons", &png_bytes(256, 256));
    let c = store_plan(r"C:\icons", &png_bytes(32, 32));
    assert_eq!(a.path, b.path);
    assert_ne!(a.path, c.path);
    assert_eq!(a.tmp, format!("{}.tmp", a.path));
    assert!(a.path.starts_with(r"C:\icons\") && a.path.ends_with(".png"));
    assert_eq!(path_from_url(&a.url).unwrap(), a.path);
}

#[test]
fn the_fingerprint_is_fnv1a_and_the_length() {
    assert_eq!(fingerprint(b""), "cbf29ce484222325".to_string() + "0");
    assert_eq!(fingerprint(b"a"), "af63dc4c8601ec8c".to_string() + "1");
}

#[test]
fn a_body_is_decoded_only_as_far_as_the_header() {
    let bytes = png_bytes(300, 200);
    let b64 = base64_encode(&bytes);
    let head = base64_decode_prefix(&b64, 24).unwrap();
    assert_eq!(head, bytes[..24].to_vec());
    let stored = store_or_inline(None, &bytes);
    assert_eq!(stored, data_url(&bytes));
    assert_eq!(store_or_inline(Some("http://asset.localhost/x".to_string()), &bytes), "http://asset.localhost/x");
}

#[test]
fn the_largest_png_frame_of_an_ico_is_taken() {
    let small = png_bytes(16, 16);
    let big = png_bytes(64, 64);
    let mut ico = vec![0u8, 0, 1, 0, 2, 0];
    let offset0 = 6 + 2 * 16;
    let offset1 = offset0 + small.len();
    for (w, data, off) in [(16u8, &small, offset0), (64u8, &big, offset1)] {
        ico.push(w);
        ico.push(w);
        ico.extend_from_slice(&[0, 0, 1, 0, 32, 0]);
        ico.extend_from_slice(&(data.len() as u32).to_le_bytes());
        ico.extend_from_slice(&(off as u32).to_le_bytes());
    }
    ico.extend_from_slice(&small);
    ico.extend_from_slice(&big);
    assert_eq!(try_extract_png_from_ico_bytes(&ico), Some(big.clone()));
    assert_eq!(try_extract_png_from_ico_bytes(&ico[..10]), None);
}

#[test]
fn the_icons_folder_is_what_was_set() {
    let mut dir = IconDir::new();
    assert_eq!(dir.dir(), None);
    dir.set_dir(r"C:\data\icons".to_string());
    assert_eq!(dir.dir().as_deref(), Some(r"C:\data\icons"));
}

#[test]
fn the_head_of_an_encoding_decodes_to_the_head_of_the_data() {
    let data: Vec<u8> = (0u8..=99).collect();
    let text = base64_encode(&data);
    for max in [0usize, 1, 2, 3, 4, 5, 24, 99, 100, 500] {
        let want = &data[..max.min(data.len())];
        assert_eq!(base64_decode_prefix(&text, max).unwrap(), want, "max {max}");
    }
}

#[test]
fn the_head_of_any_clean_text_decodes_to_the_head_of_its_bytes() {
    // "QR" carries stray low bits and no encoder writes it, yet the head still agrees
    let text = "QUJDREVGQR";
    let full = base64_decode(text).unwrap();
    assert_eq!(full, b"ABCDEFA".to_vec());
    for max in [0usize, 1, 3, 4, 6, 7, 9] {
        let want = &full[..max.min(full.len())];
        assert_eq!(base64_decode_prefix(text, max).unwrap(), want, "max {max}");
    }
    // a `=` before the last group ends that group short, and the head with it
    assert_eq!(base64_decode("QQ==QUJD").unwrap(), b"AABC".to_vec());
    assert_eq!(base64_decode_prefix("QQ==QUJD", 3).unwrap(), b"A".to_vec());
}

#[test]
fn a_stored_icon_lies_directly_in_the_icons_folder() {
    let bytes = png_bytes(64, 64);
    let name = format!("{}.png", fingerprint(&bytes));
    assert_eq!(store_plan(r"C:\icons", &bytes).path, format!(r"C:\icons\{name}"));
    assert_eq!(store_plan(r"C:\icons\", &bytes).path, format!(r"C:\icons\{name}"));
    assert_eq!(store_plan("C:", &bytes).path, format!("C:{name}"));
    let plan = store_plan(r"D:\data\floaty\icons", &bytes);
    assert_eq!(path_from_url(&plan.url).unwrap(), plan.path);
}
