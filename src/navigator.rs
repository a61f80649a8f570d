use gloo::history::AnyHistory;
use gloo::history::History;
use vstd::prelude::*;

verus! {

#[verifier::external_type_specification]
#[verifier::external_body]
pub struct ExAnyHistory(gloo::history::AnyHistory);

/// Relies on gloo's derived `Clone` for `AnyHistory`, which copies a handle to the same history.
pub assume_specification[ <gloo::history::AnyHistory as Clone>::clone ](
    h: &gloo::history::AnyHistory,
) -> gloo::history::AnyHistory;

/// The kind of history a navigator drives.
#[derive(Debug, PartialEq, Eq, Clone, Copy, Structural)]
pub enum NavigatorKind {
    /// Browser history.
    Browser,
    /// Hash history.
    Hash,
    /// Memory history.
    Memory,
}

/// The route that a navigator hands to its history: the basename, if there is one, goes in
/// front, and an empty route under a basename becomes `/`.
pub open spec fn prefixed(basename: Option<Seq<char>>, route: Seq<char>) -> Seq<char> {
    match basename {
        Some(base) => if route.len() == 0 {
            seq!['/']
        } else {
            base + route
        },
        None => route,
    }
}

/// A route that every kind of history takes: absolute, with no query and no fragment
/// (gloo's memory and hash histories throw on any other route), and one that stays on the
/// page's origin. A second `/` or `\` would make it name another host, and the URL parser
/// drops tabs and line breaks before it reads the route, so those are left out too; a browser
/// history throws on a route that leaves the origin.
pub open spec fn is_history_route(route: Seq<char>) -> bool {
    &&& route.len() > 0
    &&& route[0] == '/'
    &&& (route.len() > 1 ==> route[1] != '/' && route[1] != '\\')
    &&& forall|i: int|
        0 <= i < route.len() ==> #[trigger] route[i] != '?' && route[i] != '#' && route[i] != '\t'
            && route[i] != '\n' && route[i] != '\r'
}

/// Decides `is_history_route`.
pub fn history_route_ok(route: &str) -> (r: bool)
    ensures
        r == is_history_route(route@),
{
    let n = route.unicode_len();
    if n == 0 || route.get_char(0) != '/' {
        return false;
    }
    if n > 1 {
        let c = route.get_char(1);
        if c == '/' || c == '\\' {
            return false;
        }
    }
    let mut i: usize = 0;
    while i < n
        invariant
            n == route@.len(),
            i <= n,
            forall|j: int|
                0 <= j < i ==> #[trigger] route@[j] != '?' && route@[j] != '#' && route@[j] != '\t'
                    && route@[j] != '\n' && route@[j] != '\r',
        decreases n - i,
    {
        let c = route.get_char(i);
        if c == '?' || c == '#' || c == '\t' || c == '\n' || c == '\r' {
            return false;
        }
        i = i + 1;
    }
    true
}

/// Relies on gloo's `History::go` for `AnyHistory`: moves `delta` entries in session history.
#[verifier::external_body]
fn history_go(history: &AnyHistory, delta: isize)
    requires
        delta != isize::MIN,
{
    history.go(delta)
}

/// Relies on gloo's `History::push` for `AnyHistory`: pushes `route` onto session history.
#[verifier::external_body]
fn history_push(history: &AnyHistory, route: String)
    requires
        is_history_route(route@),
{
    history.push(route)
}

/// Relies on gloo's `History::replace` for `AnyHistory`: replaces the current entry by `route`.
#[verifier::external_body]
fn history_replace(history: &AnyHistory, route: String)
    requires
        is_history_route(route@),
{
    history.replace(route)
}

/// Relies on gloo's `History::push_with_state` for `AnyHistory`.
#[verifier::external_body]
fn history_push_with_state<T: 'static>(history: &AnyHistory, route: String, state: T)
    requires
        is_history_route(route@),
{
    history.push_with_state(route, state)
}

/// Relies on gloo's `History::replace_with_state` for `AnyHistory`.
#[verifier::external_body]
fn history_replace_with_state<T: 'static>(history: &AnyHistory, route: String, state: T)
    requires
        is_history_route(route@),
{
    history.replace_with_state(route, state)
}

/// Relies on the variants of gloo's `AnyHistory`, one kind for each.
#[verifier::external_body]
fn history_kind(history: &AnyHistory) -> NavigatorKind {
    match history {
        AnyHistory::Browser(_) => NavigatorKind::Browser,
        AnyHistory::Hash(_) => NavigatorKind::Hash,
        AnyHistory::Memory(_) => NavigatorKind::Memory,
    }
}

/// Navigates between locations of a session history, under an optional basename.
#[derive(Debug, PartialEq, Clone)]
pub struct Navigator {
    inner: AnyHistory,
    basename: Option<String>,
}

impl Navigator {
    pub closed spec fn basename_view(&self) -> Option<Seq<char>> {
        match self.basename {
            Some(b) => Some(b@),
            None => None,
        }
    }

    pub fn new(history: AnyHistory, basename: Option<String>) -> (r: Self)
        ensures
            r.basename_view() == (match basename {
                Some(b) => Some(b@),
                None => None,
            }),
    {
        Navigator { inner: history, basename }
    }

    /// The basename of this navigator.
    pub fn basename(&self) -> (r: Option<&str>)
        ensures
            (match r {
                Some(b) => Some(b@),
                None => None,
            }) == self.basename_view(),
    {
        match &self.basename {
            Some(b) => Some(b.as_str()),
            None => None,
        }
    }

    /// Navigates back one page.
    pub fn back(&self) {
        self.go(-1);
    }

    /// Navigates forward one page.
    pub fn forward(&self) {
        self.go(1);
    }

    /// Navigates `delta` pages relative to the current one.
    pub fn go(&self, delta: isize)
        requires
            delta != isize::MIN,
    {
        history_go(&self.inner, delta);
    }

    /// Pushes `route_s`, under the basename, onto the history.
    pub fn push(&self, route_s: &str)
        requires
            is_history_route(prefixed(self.basename_view(), route_s@)),
    {
        history_push(&self.inner, self.prefix_basename(route_s));
    }

    /// Replaces the current entry by `route_s`, under the basename.
    pub fn replace(&self, route_s: &str)
        requires
            is_history_route(prefixed(self.basename_view(), route_s@)),
    {
        history_replace(&self.inner, self.prefix_basename(route_s));
    }

    /// Pushes `route_s`, under the basename, with a state attached.
    pub fn push_with_state<T: 'static>(&self, route_s: &str, state: T)
        requires
            is_history_route(prefixed(self.basename_view(), route_s@)),
    {
        history_push_with_state(&self.inner, self.prefix_basename(route_s), state);
    }

    /// Replaces the current entry by `route_s`, under the basename, with a state attached.
    pub fn replace_with_state<T: 'static>(&self, route_s: &str, state: T)
        requires
            is_history_route(prefixed(self.basename_view(), route_s@)),
    {
        history_replace_with_state(&self.inner, self.prefix_basename(route_s), state);
    }

    /// The kind of history behind this navigator.
    pub fn kind(&self) -> NavigatorKind {
        history_kind(&self.inner)
    }

    /// The history this navigator drives.
    pub fn history(&self) -> &AnyHistory {
        &self.inner
    }

    /// The route handed to the history for `route_s`.
    pub fn prefix_basename(&self, route_s: &str) -> (r: String)
        ensures
            r@ == prefixed(self.basename_view(), route_s@),
    {
        match &self.basename {
            Some(base) => {
                if route_s.unicode_len() == 0 {
                    let r = String::from_str("/");
                    proof {
                        reveal_strlit("/");
                        assert(r@ =~= seq!['/']);
                    }
                    r
                } else {
                    let mut r = base.clone();
                    r.append(route_s);
                    r
                }
            },
            None => String::from_str(route_s),
        }
    }
}

} // verus!
