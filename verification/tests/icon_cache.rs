use floaty::icon_cache::{fast_route, resolve_icon_url, split_cached, FastRoute, IconCache};

#[test]
fn a_cached_icon_is_served_while_the_file_is_unchanged() {
    let mut cache = IconCache::new();
    cache.cache_icon(r"C:\a.lnk", "icon-a", Some((10, 100)));
    assert_eq!(cache.cached(r"C:\a.lnk", Some((10, 100))).as_deref(), Some("icon-a"));
    assert_eq!(cache.cached(r"C:\a.lnk", Some((11, 100))), None, "a replaced file refreshes");
    cache.cache_icon(r"C:\a.lnk", "icon-b", Some((11, 100)));
    assert_eq!(cache.cached(r"C:\a.lnk", Some((11, 100))).as_deref(), Some("icon-b"));
    assert_eq!(cache.cached(r"C:\b.lnk", None), None);

    let paths = vec![r"C:\a.lnk".to_string(), r"C:\b.lnk".to_string()];
    let stamps = vec![Some((11, 100)), None];
    let (hits, needed) = split_cached(&cache, &paths, &stamps, false);
    assert_eq!(hits, vec![(r"C:\a.lnk".to_string(), "icon-b".to_string())]);
    assert_eq!(needed, vec![r"C:\b.lnk".to_string()]);
    let (hits, needed) = split_cached(&cache, &paths, &stamps, true);
    assert!(hits.is_empty());
    assert_eq!(needed.len(), 2, "force skips the cache");
}

#[test]
fn some_icons_need_no_shell() {
    assert_eq!(fast_route(r"C:\x\Game.url"), FastRoute::Url);
    assert_eq!(fast_route(r"C:\x\Game.URL"), FastRoute::Url);
    assert_eq!(fast_route(r"C:\x\app.ico"), FastRoute::Ico);
    assert_eq!(fast_route(r"C:\x\Game.Url"), FastRoute::Shell);
    assert_eq!(fast_route(r"C:\x\app.exe"), FastRoute::Shell);
    assert_eq!(resolve_icon_url(Some("none")), None);
    assert_eq!(resolve_icon_url(None), None);
    assert_eq!(resolve_icon_url(Some("http://asset.localhost/x")).as_deref(), Some("http://asset.localhost/x"));
}

use floaty::icon_cache::parse_icon_reply;

#[test]
fn the_resolvers_reply_is_read_line_by_line() {
    let reply = "C:\\a.lnk|AAAA\r\n  C:\\b.exe|none  \ngarbage\nC:\\c|x|y\n";
    let answers = parse_icon_reply(reply);
    assert_eq!(
        answers,
        vec![
            ("C:\\a.lnk".to_string(), "AAAA".to_string()),
            ("C:\\b.exe".to_string(), "none".to_string()),
            ("C:\\c".to_string(), "x|y".to_string()),
        ]
    );
    assert!(parse_icon_reply("").is_empty());
}
