use floaty::live2d::{extract_model_stem, is_generic_model_stem};

#[test]
fn a_model_file_is_named_by_its_stem() {
    assert_eq!(extract_model_stem("Hiyori.model3.json").as_deref(), Some("Hiyori"));
    assert_eq!(extract_model_stem("shizuku.MODEL.JSON").as_deref(), Some("shizuku"));
    assert_eq!(extract_model_stem("notes.json"), None);
    assert!(is_generic_model_stem("Model"));
    assert!(is_generic_model_stem("main"));
    assert!(!is_generic_model_stem("Hiyori"));
}

use floaty::live2d::{
    display_name, finish_library, keep_model, model_candidate, model_display_name, model_takes, ScoredModel,
};

fn kept(key: &str, name: &str, parent: &str, score: i32) -> ScoredModel {
    ScoredModel {
        key: key.to_string(),
        name: name.to_string(),
        path: format!("C:\\m\\{parent}\\{name}.model3.json"),
        score,
        parent: parent.to_string(),
    }
}

#[test]
fn a_model_is_keyed_and_scored_by_its_stem_and_folder() {
    let c = model_candidate("Hiyori.model3.json", "Hiyori").unwrap();
    assert_eq!((c.stem.as_str(), c.key.as_str(), c.score, c.generic), ("Hiyori", "hiyori", 100, false));
    let g = model_candidate("model.model3.json", "Haru").unwrap();
    assert_eq!((g.key.as_str(), g.score, g.generic), ("haru/model", 0, true));
    let s = model_candidate("shizuku.model.json", "Shizuku_v2").unwrap();
    assert_eq!(s.score, 50);
    assert!(model_candidate("model.json", "x").is_none());
}

#[test]
fn a_declared_name_is_added_when_it_says_something_new() {
    assert_eq!(display_name("model", "Haru", true, Some("  Haru Greeter ")), "Haru (Haru Greeter)");
    assert_eq!(display_name("Hiyori", "x", false, Some("HIYORI")), "Hiyori");
    assert_eq!(display_name("Hiyori", "x", false, Some("Model")), "Hiyori", "a generic declared name says nothing");
    assert_eq!(display_name("model", "", true, None), "model");
    assert_eq!(model_display_name("Hiyori", "x", false, Some("{\"name\": \"Pro\"}")), "Hiyori (Pro)");
    assert_eq!(model_display_name("Hiyori", "x", false, Some("{\"name\": 3}")), "Hiyori");
    assert_eq!(model_display_name("Hiyori", "x", false, Some("not json")), "Hiyori");
}

#[test]
fn the_best_copy_of_a_model_is_kept_once() {
    let mut lib: Vec<ScoredModel> = Vec::new();
    let key = "hiyori".to_string();
    assert!(model_takes(&lib, &key, 0));
    keep_model(&mut lib, kept("hiyori", "Hiyori", "a", 0));
    assert!(!model_takes(&lib, &key, 0), "a tie keeps the first");
    assert!(model_takes(&lib, &key, 100));
    keep_model(&mut lib, kept("hiyori", "Hiyori", "Hiyori", 100));
    keep_model(&mut lib, kept("haru", "Haru", "b", 0));
    assert_eq!(lib.len(), 2);
    assert_eq!(lib[0].parent, "Hiyori");
}

#[test]
fn the_list_is_by_name_and_a_shared_name_says_its_folder() {
    let lib = vec![
        kept("a/model", "Hiyori", "A1", 0),
        kept("b/model", "Hiyori", "B2", 0),
        kept("c/model", "Haru", "Haru 2", 0),
        kept("d/model", "Haru", "Haru", 0),
        kept("alpha", "alpha", "", 0),
        kept("beta", "Beta", "Beta", 100),
    ];
    let listed = finish_library(&lib);
    let names: Vec<&str> = listed.iter().map(|e| e.name.as_str()).collect();
    assert_eq!(
        names,
        vec!["alpha", "Beta", "Haru", "Haru (Haru 2)", "Hiyori (A1)", "Hiyori (B2)"],
        "a name that already says its folder is left as it is"
    );
    assert_eq!(listed[1].path, "C:\\m\\Beta\\Beta.model3.json");
    assert_eq!(listed[2].path, "C:\\m\\Haru\\Haru.model3.json");
}

fn record(kind: &str, text: Vec<(&str, &str)>) -> floaty::folders::WidgetRecord {
    floaty::folders::WidgetRecord {
        id: format!("{kind}-1"),
        kind: kind.to_string(),
        x: 10,
        y: 20,
        text: text.into_iter().map(|(k, v)| (k.to_string(), v.to_string())).collect(),
        items: Vec::new(),
    }
}

#[test]
fn a_live2d_floatie_takes_the_new_model() {
    let mut rec = record("live2d", vec![("name", "Hiyori"), ("model", "C:\\models\\a.model3.json")]);
    assert_eq!(floaty::live2d::set_widget_model(&mut rec, "C:\\models\\b.model3.json"), Ok(()));
    assert_eq!(
        rec.text,
        vec![
            ("name".to_string(), "Hiyori".to_string()),
            ("model".to_string(), "C:\\models\\b.model3.json".to_string())
        ]
    );
    let mut fresh = record("live2d", vec![]);
    assert_eq!(floaty::live2d::set_widget_model(&mut fresh, "x.model3.json"), Ok(()));
    assert_eq!(fresh.text, vec![("model".to_string(), "x.model3.json".to_string())]);
}

#[test]
fn another_kind_of_floatie_is_refused() {
    let mut rec = record("note", vec![("text", "hi")]);
    assert_eq!(
        floaty::live2d::set_widget_model(&mut rec, "x.model3.json"),
        Err("not a live2d widget".to_string())
    );
    assert_eq!(rec.text, vec![("text".to_string(), "hi".to_string())]);
}

fn found(file_name: &str, parent: &str, content: Option<&str>) -> floaty::live2d::FoundFile {
    floaty::live2d::FoundFile {
        file_name: file_name.to_string(),
        parent: parent.to_string(),
        path: format!("C:\\models\\{parent}\\{file_name}"),
        content: content.map(|c| c.to_string()),
    }
}

#[test]
fn a_scan_keeps_one_model_per_key_the_best_copy_and_lists_by_name() {
    let files = vec![
        // a copy in an unrelated folder scores 0; the copy in its own folder replaces it
        found("Hiyori.model3.json", "backup", None),
        found("Hiyori.model3.json", "Hiyori", Some(r#"{ "name": "Hiyori Momose" }"#)),
        // a later copy that scores no better does not replace it
        found("hiyori.model3.json", "hiyori", None),
        // generic stems are told apart by their folder
        found("model.model3.json", "Mao", None),
        found("model.model3.json", "Rice", Some("not json")),
        // not a model at all
        found("notes.txt", "Mao", None),
    ];
    let lib = floaty::live2d::library_of(&files);
    let rows: Vec<(String, String)> = lib.into_iter().map(|e| (e.name, e.path)).collect();
    assert_eq!(
        rows,
        vec![
            ("Hiyori (Hiyori Momose)".to_string(), "C:\\models\\Hiyori\\Hiyori.model3.json".to_string()),
            ("Mao".to_string(), "C:\\models\\Mao\\model.model3.json".to_string()),
            ("Rice".to_string(), "C:\\models\\Rice\\model.model3.json".to_string()),
        ]
    );
    assert!(floaty::live2d::library_of(&Vec::new()).is_empty());
}
