use floaty::folders::WidgetRecord;
use floaty::palette::PaletteHit;
use floaty::palette_run::run_plan;

fn hit(kind: &str, title: &str, id: Option<&str>, path: Option<&str>) -> PaletteHit {
    PaletteHit {
        kind: kind.to_string(),
        title: title.to_string(),
        subtitle: String::new(),
        icon: String::new(),
        id: id.map(|s| s.to_string()),
        path: path.map(|s| s.to_string()),
    }
}

fn record(id: &str, kind: &str, text: &[(&str, &str)]) -> WidgetRecord {
    WidgetRecord {
        id: id.to_string(),
        kind: kind.to_string(),
        x: 0,
        y: 0,
        text: text.iter().map(|(k, v)| (k.to_string(), v.to_string())).collect(),
        items: Vec::new(),
    }
}

#[test]
fn a_row_opens_launches_or_says_where_it_lives() {
    let records = vec![
        record("app-1", "app", &[("target", "C:\\x\\Tool.lnk")]),
        record("note-2", "note", &[("text", "hi")]),
    ];
    let opened = run_plan(&[], &records, &hit("file", "a", None, Some("C:\\R\\a.txt"))).unwrap();
    assert_eq!(opened.launch.as_deref(), Some("C:\\R\\a.txt"));
    assert_eq!(opened.note, "opened C:\\R\\a.txt");
    assert_eq!(run_plan(&[], &records, &hit("app", "x", None, Some("  "))).err().as_deref(), Some("nothing to open"));
    let launched = run_plan(&[], &records, &hit("floatie", "Tool", Some("app-1"), None)).unwrap();
    assert_eq!(launched.launch.as_deref(), Some("C:\\x\\Tool.lnk"));
    assert_eq!(launched.note, "launched C:\\x\\Tool.lnk");
    let here = run_plan(&[], &records, &hit("floatie", "Note", Some("note-2"), None)).unwrap();
    assert_eq!(here.launch, None);
    assert_eq!(here.note, "Note lives on your desktop");
    assert_eq!(
        run_plan(&[], &records, &hit("widget", "w", None, None)).err().as_deref(),
        Some("nothing here knows how to run a 'widget'")
    );
}
