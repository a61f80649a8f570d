use vstd::prelude::*;

use crate::matcher::{
    MatchError, MatchModel, RouteList, Route, accepts, bound_params, first_accepting, first_segment,
    is_illegal_char, is_index_path, is_param, is_segment_end, is_valid_path, is_wildcard, lemma_segment_end,
    lemma_sub_path_shorter, match_spec, remainder, resolve_spec, segment_end, strip_leading,
};

verus! {

/// A route is literal when it is neither the index route, the fallback, nor a capture.
pub open spec fn is_literal(rp: Seq<char>) -> bool {
    rp.len() > 0 && !is_wildcard(rp) && !is_param(rp)
}

proof fn lemma_first_accepting_at(routes: Seq<Route>, p: Seq<char>, j: int, i: int)
    requires
        0 <= j <= i < routes.len(),
        forall|k: int| j <= k < i ==> !accepts(#[trigger] routes[k].path@, p),
        accepts(routes[i].path@, p),
    ensures
        first_accepting(routes, p, j) == i,
    decreases i - j,
{
    if j < i {
        lemma_first_accepting_at(routes, p, j + 1, i);
    }
}

proof fn lemma_first_accepting_none(routes: Seq<Route>, p: Seq<char>, j: int)
    requires
        0 <= j <= routes.len(),
        forall|k: int| j <= k < routes.len() ==> !accepts(#[trigger] routes[k].path@, p),
    ensures
        first_accepting(routes, p, j) == routes.len(),
    decreases routes.len() - j,
{
    if j < routes.len() {
        lemma_first_accepting_none(routes, p, j + 1);
    }
}

proof fn lemma_first_accepting_bounds(routes: Seq<Route>, p: Seq<char>, j: int)
    requires
        0 <= j <= routes.len(),
    ensures
        j <= first_accepting(routes, p, j) <= routes.len(),
        forall|k: int| j <= k < first_accepting(routes, p, j) ==> !accepts(#[trigger] routes[k].path@, p),
        first_accepting(routes, p, j) < routes.len() ==> accepts(
            routes[first_accepting(routes, p, j)].path@,
            p,
        ),
    decreases routes.len() - j,
{
    if j < routes.len() && !accepts(routes[j].path@, p) {
        lemma_first_accepting_bounds(routes, p, j + 1);
    }
}

proof fn lemma_first_accepting_same(routes: Seq<Route>, p: Seq<char>, q: Seq<char>, j: int)
    requires
        0 <= j <= routes.len(),
        forall|k: int| 0 <= k < routes.len() ==> accepts(#[trigger] routes[k].path@, p) == accepts(routes[k].path@, q),
    ensures
        first_accepting(routes, p, j) == first_accepting(routes, q, j),
    decreases routes.len() - j,
{
    if j < routes.len() {
        lemma_first_accepting_same(routes, p, q, j + 1);
    }
}

/// The empty path goes to the first index route of a list, with nothing bound and nothing
/// left over, unless a fallback stands before it.
pub proof fn lemma_index_route(list: RouteList, i: int)
    requires
        0 <= i < list.routes@.len(),
        list.routes@[i].path@.len() == 0,
        forall|j: int| 0 <= j < i ==> !is_wildcard(#[trigger] list.routes@[j].path@)
            && list.routes@[j].path@.len() != 0,
    ensures
        match_spec(list, Seq::empty()) matches Ok(m) && m.index == i && m.route
            == list.routes@[i] && m.params.len() == 0 && m.sub_path is None,
{
    let p = Seq::<char>::empty();
    lemma_segment_end(p, 0);
    assert(strip_leading(p) == p);
    assert forall|k: int| 0 <= k < i implies !accepts(#[trigger] list.routes@[k].path@, p) by {
        assert(first_segment(p).len() == 0);
    }
    lemma_first_accepting_at(list.routes@, p, 0, i);
}

/// A literal route takes a path whose first segment it equals, when no earlier route accepts
/// the path; it binds nothing.
pub proof fn lemma_literal_route(list: RouteList, path: Seq<char>, i: int)
    requires
        is_valid_path(path),
        0 <= i < list.routes@.len(),
        is_literal(list.routes@[i].path@),
        list.routes@[i].path@ == first_segment(strip_leading(path)),
        forall|j: int| 0 <= j < i ==> !accepts(#[trigger] list.routes@[j].path@, strip_leading(path)),
    ensures
        match_spec(list, path) matches Ok(m) && m.index == i && m.route == list.routes@[i]
            && m.params.len() == 0,
{
    lemma_first_accepting_at(list.routes@, strip_leading(path), 0, i);
}

/// In a list of literal and index routes only, a non-empty first segment that none of them
/// equals is not found.
pub proof fn lemma_literal_miss(list: RouteList, path: Seq<char>)
    requires
        is_valid_path(path),
        first_segment(strip_leading(path)).len() > 0,
        forall|j: int| 0 <= j < list.routes@.len() ==> (#[trigger] list.routes@[j].path@.len() == 0
            || is_literal(list.routes@[j].path@)) && list.routes@[j].path@ != first_segment(
            strip_leading(path),
        ),
    ensures
        match_spec(list, path) == Err::<MatchModel, MatchError>(MatchError::NotFound),
{
    let p = strip_leading(path);
    lemma_segment_end(p, 0);
    assert(!is_index_path(p)) by {
        if p == seq!['/'] {
            assert(is_segment_end(p, 0));
            lemma_segment_end(p, 0);
        }
    }
    lemma_first_accepting_none(list.routes@, strip_leading(path), 0);
}

/// A capture route takes any non-empty first segment, when no earlier route accepts the
/// path, and binds its name to that exact segment.
pub proof fn lemma_param_binds(list: RouteList, path: Seq<char>, i: int)
    requires
        is_valid_path(path),
        first_segment(strip_leading(path)).len() > 0,
        0 <= i < list.routes@.len(),
        is_param(list.routes@[i].path@),
        forall|j: int| 0 <= j < i ==> !accepts(#[trigger] list.routes@[j].path@, strip_leading(path)),
    ensures
        match_spec(list, path) matches Ok(m) && m.index == i && m.params == seq![
            (list.routes@[i].path@.drop_first(), first_segment(strip_leading(path))),
        ],
{
    let rp = list.routes@[i].path@;
    assert(!is_wildcard(rp)) by {
        if is_wildcard(rp) {
            assert(rp[0] == '*');
        }
    }
    lemma_first_accepting_at(list.routes@, strip_leading(path), 0, i);
}

/// Of two routes that both accept a path, the later one is never chosen.
pub proof fn lemma_declaration_order(list: RouteList, path: Seq<char>, i: int, k: int)
    requires
        is_valid_path(path),
        0 <= i < k < list.routes@.len(),
        accepts(list.routes@[i].path@, strip_leading(path)),
        accepts(list.routes@[k].path@, strip_leading(path)),
    ensures
        match_spec(list, path) matches Ok(m) && m.index <= i && m.index != k,
{
    lemma_first_accepting_bounds(list.routes@, strip_leading(path), 0);
}

/// A fallback route is chosen exactly when no earlier route of its list accepts the path,
/// and with a fallback in the list a well-formed path always finds a route at or before it:
/// no route declared after a fallback is ever chosen.
pub proof fn lemma_wildcard_fallback(list: RouteList, path: Seq<char>, w: int)
    requires
        is_valid_path(path),
        0 <= w < list.routes@.len(),
        is_wildcard(list.routes@[w].path@),
    ensures
        (match_spec(list, path) matches Ok(m) && m.index == w) <==> forall|j: int|
            0 <= j < w ==> !accepts(#[trigger] list.routes@[j].path@, strip_leading(path)),
        match_spec(list, path) matches Ok(m) && m.index <= w,
{
    let p = strip_leading(path);
    lemma_first_accepting_bounds(list.routes@, p, 0);
    if forall|j: int| 0 <= j < w ==> !accepts(#[trigger] list.routes@[j].path@, p) {
        lemma_first_accepting_at(list.routes@, p, 0, w);
    }
}

/// Two results that choose the same route, with the same captures, or fail alike.
pub open spec fn same_choice(a: Result<MatchModel, MatchError>, b: Result<MatchModel, MatchError>) -> bool {
    match (a, b) {
        (Ok(x), Ok(y)) => x.index == y.index && x.route == y.route && x.params == y.params,
        (Err(e), Err(f)) => e == f,
        _ => false,
    }
}

/// A leading slash changes nothing, and a trailing slash changes nothing but what is left
/// over.
pub proof fn lemma_slash_normalization(list: RouteList, path: Seq<char>)
    requires
        path.len() == 0 || path[0] != '/',
    ensures
        match_spec(list, seq!['/'] + path) == match_spec(list, path),
        same_choice(match_spec(list, path + seq!['/']), match_spec(list, path)),
{
    let lead = seq!['/'] + path;
    let trail = path + seq!['/'];
    assert(strip_leading(lead) =~= path);
    assert(is_valid_path(lead) == is_valid_path(path)) by {
        if is_valid_path(path) {
            assert forall|i: int| 0 <= i < lead.len() implies !is_illegal_char(#[trigger] lead[i]) by {
                if i > 0 {
                    assert(lead[i] == path[i - 1]);
                }
            }
        }
        if is_valid_path(lead) {
            assert forall|i: int| 0 <= i < path.len() implies !is_illegal_char(#[trigger] path[i]) by {
                assert(lead[i + 1] == path[i]);
            }
        }
    }
    assert(is_valid_path(trail) == is_valid_path(path)) by {
        if is_valid_path(path) {
            assert forall|i: int| 0 <= i < trail.len() implies !is_illegal_char(#[trigger] trail[i]) by {
                if i < path.len() {
                    assert(trail[i] == path[i]);
                }
            }
        }
        if is_valid_path(trail) {
            assert forall|i: int| 0 <= i < path.len() implies !is_illegal_char(#[trigger] path[i]) by {
                assert(trail[i] == path[i]);
            }
        }
    }
    if path.len() == 0 {
        assert(strip_leading(trail) =~= path);
    } else {
        assert(strip_leading(trail) == trail);
        assert(strip_leading(path) == path);
        lemma_segment_end(path, 0);
        let e = segment_end(path);
        assert(is_segment_end(trail, e));
        lemma_segment_end(trail, e);
        assert(first_segment(trail) =~= first_segment(path));
        assert(!is_index_path(path)) by {
            if path == seq!['/'] {
                assert(path[0] == '/');
            }
        }
        assert(!is_index_path(trail)) by {
            if trail == seq!['/'] {
                assert(trail.len() == 1);
            }
        }
        assert forall|k: int| 0 <= k < list.routes@.len() implies accepts(
            #[trigger] list.routes@[k].path@,
            trail,
        ) == accepts(list.routes@[k].path@, path) by {}
        lemma_first_accepting_same(list.routes@, trail, path, 0);
    }
}

/// Resolving a path through every level is matching it one level deep, then resolving what
/// is left over against the routes nested below the matched route.
pub proof fn lemma_resolve_by_levels(list: RouteList, path: Seq<char>)
    ensures
        resolve_spec(list, path) == match match_spec(list, path) {
            Err(e) => Err(e),
            Ok(m) => match (m.route.next_routes, m.sub_path) {
                (Some(nested), Some(q)) => match resolve_spec(nested, q) {
                    Ok(rest) => Ok(seq![m] + rest),
                    Err(e) => Err(e),
                },
                _ => Ok(seq![m]),
            },
        },
{
    lemma_sub_path_shorter(list, path);
}

/// Whether the entry `(i, j)` of the tree flattened to one level accepts `path`: route `i`
/// accepts the path and, when it has nested routes and the path goes on past its segment,
/// nested route `j` accepts what follows; otherwise `j` is `None`.
pub open spec fn flat_accepts(list: RouteList, path: Seq<char>, i: int, j: Option<int>) -> bool {
    let p = strip_leading(path);
    &&& is_valid_path(path)
    &&& 0 <= i < list.routes@.len()
    &&& accepts(list.routes@[i].path@, p)
    &&& match (list.routes@[i].next_routes, remainder(p)) {
        (Some(nested), Some(q)) => j is Some && 0 <= j->Some_0 < nested.routes@.len() && accepts(
            nested.routes@[j->Some_0].path@,
            strip_leading(q),
        ),
        _ => j is None,
    }
}

/// `(i2, j2)` comes before `(i, j)` in the flattened tree.
pub open spec fn flat_before(i2: int, j2: Option<int>, i: int, j: Option<int>) -> bool {
    ||| i2 < i
    ||| (i2 == i && j2 is Some && j is Some && j2->Some_0 < j->Some_0)
}

/// The captures that the flattened entry `(i, j)` binds on `path`.
pub open spec fn flat_params(list: RouteList, path: Seq<char>, i: int, j: Option<int>) -> Seq<
    (Seq<char>, Seq<char>),
> {
    let p = strip_leading(path);
    let top = bound_params(list.routes@[i].path@, first_segment(p));
    match (list.routes@[i].next_routes, remainder(p), j) {
        (Some(nested), Some(q), Some(k)) => top + bound_params(
            nested.routes@[k].path@,
            first_segment(strip_leading(q)),
        ),
        _ => top,
    }
}

/// The entry that matching level by level picks: the route of the first level and, when the
/// path goes on into its nested routes, the route of the second; `None` when either fails.
pub open spec fn level_choice(list: RouteList, path: Seq<char>) -> Option<(int, Option<int>)> {
    match match_spec(list, path) {
        Err(_) => None,
        Ok(m) => match (m.route.next_routes, m.sub_path) {
            (Some(nested), Some(q)) => match match_spec(nested, q) {
                Ok(m2) => Some((m.index, Some(m2.index))),
                Err(_) => None,
            },
            _ => Some((m.index, None)),
        },
    }
}

/// The captures of both levels, first level first.
pub open spec fn level_params(list: RouteList, path: Seq<char>) -> Seq<(Seq<char>, Seq<char>)> {
    match match_spec(list, path) {
        Err(_) => seq![],
        Ok(m) => match (m.route.next_routes, m.sub_path) {
            (Some(nested), Some(q)) => match match_spec(nested, q) {
                Ok(m2) => m.params + m2.params,
                Err(_) => m.params,
            },
            _ => m.params,
        },
    }
}

/// Matching a path, then matching what is left over against the matched route's nested
/// routes, picks the same routes and binds the same captures as matching the path against the
/// tree flattened to one level, whose entries are ordered by the first level and then the
/// second. Where the first level matches but its nested routes do not, the flattened tree may
/// go on to a later route, so that case is left out.
pub proof fn lemma_flattened_round_trip(list: RouteList, path: Seq<char>)
    requires
        match_spec(list, path) matches Ok(m) ==> (match (m.route.next_routes, m.sub_path) {
            (Some(nested), Some(q)) => match_spec(nested, q) is Ok,
            _ => true,
        }),
    ensures
        level_choice(list, path) is None ==> forall|i: int, j: Option<int>|
            !#[trigger] flat_accepts(list, path, i, j),
        level_choice(list, path) matches Some(c) ==> {
            &&& flat_accepts(list, path, c.0, c.1)
            &&& forall|i: int, j: Option<int>|
                #[trigger] flat_before(i, j, c.0, c.1) ==> !flat_accepts(list, path, i, j)
            &&& flat_params(list, path, c.0, c.1) == level_params(list, path)
        },
{
    let p = strip_leading(path);
    let routes = list.routes@;
    lemma_first_accepting_bounds(routes, p, 0);
    match match_spec(list, path) {
        Err(_) => {},
        Ok(m) => {
            match (m.route.next_routes, m.sub_path) {
                (Some(nested), Some(q)) => {
                    let q2 = strip_leading(q);
                    lemma_first_accepting_bounds(nested.routes@, q2, 0);
                },
                _ => {},
            }
        },
    }
}

} // verus!
