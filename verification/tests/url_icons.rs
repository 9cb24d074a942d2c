use floaty::url_icons::url_icon_files;

#[test]
fn a_steam_shortcut_names_its_ico() {
    let text = "[InternetShortcut]\r\nURL=steam://rungameid/570\r\nIconIndex=0\r\nIconFile=C:\\Program Files (x86)\\Steam\\steam\\games\\dota.ico\r\n";
    assert_eq!(
        url_icon_files(text),
        vec!["C:\\Program Files (x86)\\Steam\\steam\\games\\dota.ico".to_string()]
    );
}

#[test]
fn the_icon_line_is_trimmed_on_both_sides_of_the_key() {
    assert_eq!(url_icon_files("  IconFile=  D:\\a.ICO  \n"), vec!["D:\\a.ICO".to_string()]);
}

#[test]
fn only_ico_files_are_named() {
    assert!(url_icon_files("IconFile=C:\\a.png\nIconFile=C:\\b.Ico\n").is_empty());
    assert!(url_icon_files("URL=https://example.com\n").is_empty());
    assert!(url_icon_files("").is_empty());
}

#[test]
fn several_icon_lines_come_in_order() {
    assert_eq!(
        url_icon_files("IconFile=b.ico\nx=1\nIconFile=a.ico"),
        vec!["b.ico".to_string(), "a.ico".to_string()]
    );
}
