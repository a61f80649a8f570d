use yew_router::{MatchError, Route, RouteList, TreeError};

fn leaf(path: &str) -> Route {
    Route {
        path: path.to_string(),
        next_routes: None,
    }
}

fn flat_tree() -> RouteList {
    RouteList {
        routes: vec![leaf(""), leaf("secure"), leaf("*")],
    }
}

fn nested_tree() -> RouteList {
    let sub = RouteList {
        routes: vec![leaf(""), leaf("*")],
    };
    RouteList {
        routes: vec![
            leaf(""),
            Route {
                path: "sub".to_string(),
                next_routes: Some(sub),
            },
            leaf("*"),
        ],
    }
}

#[test]
fn empty_path_matches_index() {
    let tree = flat_tree();
    let out = tree.route("").unwrap();
    assert_eq!(out.route.path, "");
    assert!(out.params.is_empty());
    assert_eq!(out.sub_path, None);
}

#[test]
fn literal_segment_matches_literal_route() {
    let tree = flat_tree();
    let out = tree.route("secure").unwrap();
    assert_eq!(out.route.path, "secure");
    assert_eq!(out.sub_path, None);
    assert!(out.params.is_empty());
}

#[test]
fn unknown_segment_falls_back_to_wildcard() {
    let tree = flat_tree();
    let out = tree.route("anything").unwrap();
    assert_eq!(out.route.path, "*");
}

#[test]
fn nested_remainder_is_handed_down() {
    let tree = nested_tree();
    let out = tree.route("sub/x").unwrap();
    assert_eq!(out.route.path, "sub");
    assert_eq!(out.sub_path.as_deref(), Some("x"));
    let nested = out.route.next_routes.as_ref().unwrap();
    let inner = nested.route(out.sub_path.as_deref().unwrap()).unwrap();
    assert_eq!(inner.route.path, "*");
}

#[test]
fn trailing_slash_leaves_empty_remainder() {
    let tree = nested_tree();
    let out = tree.route("sub/").unwrap();
    assert_eq!(out.route.path, "sub");
    assert_eq!(out.sub_path.as_deref(), Some(""));
    let nested = out.route.next_routes.as_ref().unwrap();
    let inner = nested.route("").unwrap();
    assert_eq!(inner.route.path, "");
}

#[test]
fn malformed_path_is_invalid_not_missing() {
    let tree = flat_tree();
    assert!(matches!(tree.route("a b"), Err(MatchError::InvalidPath)));
    assert!(matches!(tree.route("secure?x=1"), Err(MatchError::InvalidPath)));
    assert!(matches!(tree.route("secure#top"), Err(MatchError::InvalidPath)));
    let literal_only = RouteList {
        routes: vec![leaf("secure")],
    };
    assert!(matches!(literal_only.route("other"), Err(MatchError::NotFound)));
}

#[test]
fn literal_miss_is_not_found() {
    let tree = RouteList {
        routes: vec![leaf("a"), leaf("b")],
    };
    assert!(matches!(tree.route("c"), Err(MatchError::NotFound)));
    assert!(matches!(tree.route("c/a"), Err(MatchError::NotFound)));
    assert_eq!(tree.route("b/c").unwrap().route.path, "b");
}

#[test]
fn empty_list_finds_nothing() {
    let tree = RouteList { routes: vec![] };
    assert!(matches!(tree.route(""), Err(MatchError::NotFound)));
    assert!(matches!(tree.route("x"), Err(MatchError::NotFound)));
}

#[test]
fn param_binds_exact_segment() {
    let tree = RouteList {
        routes: vec![leaf("users"), leaf(":id")],
    };
    let out = tree.route("42/profile").unwrap();
    assert_eq!(out.route.path, ":id");
    assert_eq!(out.params, vec![("id".to_string(), "42".to_string())]);
    assert_eq!(out.sub_path.as_deref(), Some("profile"));
    assert!(matches!(tree.route(""), Err(MatchError::NotFound)));
    assert!(matches!(tree.route("/"), Err(MatchError::NotFound)));
}

#[test]
fn earlier_route_wins() {
    let tree = RouteList {
        routes: vec![leaf(":first"), leaf("a"), leaf("*")],
    };
    let out = tree.route("a").unwrap();
    assert_eq!(out.route.path, ":first");
    let wild_first = RouteList {
        routes: vec![leaf("*"), leaf("a"), leaf("")],
    };
    assert_eq!(wild_first.route("a").unwrap().route.path, "*");
    assert_eq!(wild_first.route("").unwrap().route.path, "*");
}

#[test]
fn wildcard_only_after_misses() {
    let tree = RouteList {
        routes: vec![leaf("a"), leaf("*"), leaf("b")],
    };
    assert_eq!(tree.route("a").unwrap().route.path, "a");
    assert_eq!(tree.route("b").unwrap().route.path, "*");
}

#[test]
fn slashes_are_normalized() {
    let tree = RouteList {
        routes: vec![leaf("x"), leaf(":seg")],
    };
    let plain = tree.route("a/b").unwrap();
    let lead = tree.route("/a/b").unwrap();
    let trail = tree.route("a/b/").unwrap();
    assert_eq!(plain.route.path, ":seg");
    assert_eq!(lead.route.path, ":seg");
    assert_eq!(trail.route.path, ":seg");
    assert_eq!(plain.params, lead.params);
    assert_eq!(plain.params, trail.params);
    assert_eq!(plain.sub_path.as_deref(), Some("b"));
    assert_eq!(lead.sub_path.as_deref(), Some("b"));
    assert_eq!(trail.sub_path.as_deref(), Some("b/"));
    assert_eq!(flat_tree().route("/").unwrap().route.path, "");
    assert_eq!(flat_tree().route("/secure").unwrap().route.path, "secure");
}

#[test]
fn resolve_follows_nested_lists() {
    let tree = nested_tree();
    let levels = tree.resolve("sub/x").unwrap();
    assert_eq!(levels.len(), 2);
    assert_eq!(levels[0].route.path, "sub");
    assert_eq!(levels[1].route.path, "*");
    let step = tree.route("sub/x").unwrap();
    let nested = step.route.next_routes.as_ref().unwrap();
    let again = nested.route(step.sub_path.as_deref().unwrap()).unwrap();
    assert_eq!(levels[1].route.path, again.route.path);
    assert_eq!(levels[1].sub_path, again.sub_path);

    let index = tree.resolve("/sub/").unwrap();
    assert_eq!(index.len(), 2);
    assert_eq!(index[1].route.path, "");

    let top_only = tree.resolve("sub").unwrap();
    assert_eq!(top_only.len(), 1);
    assert_eq!(tree.resolve("other/y").unwrap().len(), 1);
    assert!(matches!(tree.resolve("sub/a b"), Err(MatchError::InvalidPath)));
}

#[test]
fn resolve_propagates_nested_miss() {
    let inner = RouteList {
        routes: vec![leaf("only")],
    };
    let tree = RouteList {
        routes: vec![Route {
            path: ":id".to_string(),
            next_routes: Some(inner),
        }],
    };
    assert!(matches!(tree.resolve("7/other"), Err(MatchError::NotFound)));
    let ok = tree.resolve("7/only").unwrap();
    assert_eq!(ok[0].params, vec![("id".to_string(), "7".to_string())]);
    assert_eq!(ok[1].route.path, "only");
}

#[test]
fn cloned_tree_is_equal() {
    let tree = nested_tree();
    let copy = tree.clone();
    assert!(copy == tree);
    let mut changed = nested_tree();
    changed.routes[1].next_routes.as_mut().unwrap().routes[1].path = "other".to_string();
    assert!(changed != tree);
    let mut shorter = nested_tree();
    shorter.routes.pop();
    assert!(shorter != tree);
    let mut leafed = nested_tree();
    leafed.routes[1].next_routes = None;
    assert!(leafed != tree);
}

#[test]
fn validate_rejects_duplicate_siblings() {
    assert_eq!(nested_tree().validate(), Ok(()));
    assert_eq!(flat_tree().validate(), Ok(()));
    let two_wildcards = RouteList {
        routes: vec![leaf("*"), leaf("a"), leaf("*")],
    };
    assert_eq!(two_wildcards.validate(), Err(TreeError::DuplicatePath));
    let nested_dup = RouteList {
        routes: vec![Route {
            path: "sub".to_string(),
            next_routes: Some(RouteList {
                routes: vec![leaf("x"), leaf("x")],
            }),
        }],
    };
    assert_eq!(nested_dup.validate(), Err(TreeError::DuplicatePath));
}

#[test]
fn two_levels_bind_captures_of_both() {
    let inner = RouteList {
        routes: vec![leaf("posts"), leaf(":post")],
    };
    let tree = RouteList {
        routes: vec![
            Route {
                path: ":user".to_string(),
                next_routes: Some(inner),
            },
            leaf("*"),
        ],
    };
    let levels = tree.resolve("/ann/7").unwrap();
    assert_eq!(levels.len(), 2);
    assert_eq!(levels[0].params, vec![("user".to_string(), "ann".to_string())]);
    assert_eq!(levels[1].route.path, ":post");
    assert_eq!(levels[1].params, vec![("post".to_string(), "7".to_string())]);
    let posts = tree.resolve("ann/posts").unwrap();
    assert_eq!(posts[1].route.path, "posts");
    assert!(posts[1].params.is_empty());
}
