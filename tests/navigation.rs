use gloo::history::{AnyHistory, History, MemoryHistory};
use yew_router::utils::{base_from_pathname, base_url, compose_path, compose_trimmed, strip_slash_suffix, BaseUrlCache};
use yew_router::navigator::history_route_ok;
use yew_router::{Navigator, NavigatorKind};

fn memory_navigator(basename: Option<&str>) -> Navigator {
    let history = AnyHistory::Memory(MemoryHistory::new());
    Navigator::new(history, basename.map(|b| b.to_string()))
}

#[test]
fn prefix_basename_prepends_base() {
    let nav = memory_navigator(Some("/app"));
    assert_eq!(nav.basename(), Some("/app"));
    assert_eq!(nav.prefix_basename("/home"), "/app/home");
    assert_eq!(nav.prefix_basename(""), "/");
    let bare = memory_navigator(None);
    assert_eq!(bare.basename(), None);
    assert_eq!(bare.prefix_basename("/home"), "/home");
    assert_eq!(bare.prefix_basename(""), "");
}

#[test]
fn push_and_replace_reach_history() {
    let nav = memory_navigator(Some("/app"));
    assert_eq!(nav.kind(), NavigatorKind::Memory);
    nav.push("/one");
    assert_eq!(nav.history().location().path(), "/app/one");
    nav.replace("/two");
    assert_eq!(nav.history().location().path(), "/app/two");
    nav.push_with_state("/three", 3u32);
    assert_eq!(nav.history().location().path(), "/app/three");
    nav.replace_with_state("/four", 4u32);
    assert_eq!(nav.history().location().path(), "/app/four");
}

#[test]
fn back_and_forward_move_in_history() {
    let nav = memory_navigator(None);
    nav.push("/a");
    nav.push("/b");
    nav.back();
    assert_eq!(nav.history().location().path(), "/a");
    nav.forward();
    assert_eq!(nav.history().location().path(), "/b");
    nav.go(-1);
    assert_eq!(nav.history().location().path(), "/a");
}

#[test]
fn strip_slash_suffix_drops_one_slash() {
    assert_eq!(strip_slash_suffix("/base/"), "/base");
    assert_eq!(strip_slash_suffix("/base"), "/base");
    assert_eq!(strip_slash_suffix("/base//"), "/base/");
    assert_eq!(strip_slash_suffix(""), "");
}

#[test]
fn base_from_pathname_ignores_root() {
    assert_eq!(base_from_pathname("/"), None);
    assert_eq!(base_from_pathname("/app/"), Some("/app".to_string()));
    assert_eq!(base_from_pathname("/app"), Some("/app".to_string()));
}

#[test]
fn base_url_fetches_once() {
    let mut cache = BaseUrlCache::new();
    let mut calls = 0u32;
    let first = base_url(&mut cache, || {
        calls += 1;
        Some("/app".to_string())
    });
    assert_eq!(first, Some("/app".to_string()));
    let second = base_url(&mut cache, || {
        calls += 1;
        Some("/other".to_string())
    });
    assert_eq!(second, Some("/app".to_string()));
    assert_eq!(calls, 1);

    let mut empty = BaseUrlCache::new();
    assert_eq!(base_url(&mut empty, || None), None);
    assert_eq!(base_url(&mut empty, || Some("/late".to_string())), None);
}

#[test]
fn compose_path_affixes_trimmed_query() {
    assert_eq!(compose_path("/search", "  q=1 "), Some("/search?q=1".to_string()));
    assert_eq!(compose_path("/search", "   "), Some("/search".to_string()));
    assert_eq!(compose_path("/search", ""), Some("/search".to_string()));
    assert_eq!(compose_trimmed("/a", "b=2"), Some("/a?b=2".to_string()));
    assert_eq!(compose_trimmed("/a", ""), Some("/a".to_string()));
}

#[test]
fn history_routes_stay_on_origin() {
    assert!(history_route_ok("/"));
    assert!(history_route_ok("/app/home"));
    assert!(!history_route_ok(""));
    assert!(!history_route_ok("home"));
    assert!(!history_route_ok("//other.example/x"));
    assert!(!history_route_ok("/\\other.example/x"));
    assert!(!history_route_ok("/\t/other.example"));
    assert!(!history_route_ok("/a\nb"));
    assert!(!history_route_ok("/a\rb"));
    assert!(!history_route_ok("/a?b=1"));
    assert!(!history_route_ok("/a#top"));
}

#[test]
fn compose_path_trims_unicode_white_space() {
    assert_eq!(compose_path("/p", "\u{a0}\tq=1\u{3000}"), Some("/p?q=1".to_string()));
    assert_eq!(compose_path("/p", "\u{2028}"), Some("/p".to_string()));
}
