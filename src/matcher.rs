use vstd::prelude::*;

verus! {

/// Why a path could not be matched against a route list.
#[derive(Debug, Clone, Copy, PartialEq, Eq, Structural)]
pub enum MatchError {
    /// The path holds a character that no path may hold.
    InvalidPath,
    /// The path is well formed, but no route of the list accepts it.
    NotFound,
}

/// One declared path segment, with the routes nested below it, if any.
#[derive(Debug)]
pub struct Route {
    /// `""` is the index route, `"*"` the fallback, `":name"` a named capture;
    /// anything else must equal the segment literally.
    pub path: String,
    pub next_routes: Option<RouteList>,
}

/// Routes in declaration order: the first one that accepts a path wins.
#[derive(Debug)]
pub struct RouteList {
    pub routes: Vec<Route>,
}

/// Two routes with the same path and, below them, equal lists.
pub open spec fn same_route(a: Route, b: Route) -> bool
    decreases a,
{
    &&& a.path@ == b.path@
    &&& match (a.next_routes, b.next_routes) {
        (Some(x), Some(y)) => same_list(x, y),
        (None, None) => true,
        _ => false,
    }
}

/// Two lists of equal routes, in the same order.
pub open spec fn same_list(a: RouteList, b: RouteList) -> bool
    decreases a,
{
    &&& a.routes@.len() == b.routes@.len()
    &&& forall|i: int| 0 <= i < a.routes@.len() ==> same_route(#[trigger] a.routes@[i], b.routes@[i])
}

impl Clone for Route {
    fn clone(&self) -> (r: Self)
        ensures
            same_route(r, *self),
        decreases self,
    {
        let next_routes = match &self.next_routes {
            Some(list) => Some(list.clone()),
            None => None,
        };
        Route { path: self.path.clone(), next_routes }
    }
}

impl Clone for RouteList {
    fn clone(&self) -> (r: Self)
        ensures
            same_list(r, *self),
        decreases self,
    {
        let mut routes: Vec<Route> = Vec::new();
        let mut i: usize = 0;
        while i < self.routes.len()
            invariant
                i <= self.routes@.len(),
                routes@.len() == i,
                forall|j: int| 0 <= j < i ==> same_route(#[trigger] routes@[j], self.routes@[j]),
            decreases self.routes@.len() - i,
        {
            proof {
                assert(decreases_to!(self => self.routes));
                assert(decreases_to!(self.routes => self.routes[i as int]));
            }
            routes.push(self.routes[i].clone());
            i = i + 1;
        }
        RouteList { routes }
    }
}

impl PartialEq for Route {
    fn eq(&self, other: &Route) -> (r: bool)
        decreases self,
    {
        if self.path != other.path {
            return false;
        }
        match (&self.next_routes, &other.next_routes) {
            (Some(x), Some(y)) => x.eq(y),
            (None, None) => true,
            _ => false,
        }
    }
}

impl vstd::std_specs::cmp::PartialEqSpecImpl for Route {
    open spec fn obeys_eq_spec() -> bool {
        true
    }

    open spec fn eq_spec(&self, o: &Route) -> bool {
        same_route(*self, *o)
    }
}

impl PartialEq for RouteList {
    fn eq(&self, other: &RouteList) -> (r: bool)
        decreases self,
    {
        if self.routes.len() != other.routes.len() {
            return false;
        }
        let mut i: usize = 0;
        while i < self.routes.len()
            invariant
                i <= self.routes@.len(),
                self.routes@.len() == other.routes@.len(),
                forall|j: int| 0 <= j < i ==> same_route(#[trigger] self.routes@[j], other.routes@[j]),
            decreases self.routes@.len() - i,
        {
            proof {
                assert(decreases_to!(self => self.routes));
                assert(decreases_to!(self.routes => self.routes[i as int]));
            }
            if !self.routes[i].eq(&other.routes[i]) {
                return false;
            }
            i = i + 1;
        }
        true
    }
}

impl vstd::std_specs::cmp::PartialEqSpecImpl for RouteList {
    open spec fn obeys_eq_spec() -> bool {
        true
    }

    open spec fn eq_spec(&self, o: &RouteList) -> bool {
        same_list(*self, *o)
    }
}

/// Why a route tree cannot be matched against unambiguously.
#[derive(Debug, Clone, Copy, PartialEq, Eq, Structural)]
pub enum TreeError {
    /// Two routes of one list have the same path, so the later one can never be chosen.
    DuplicatePath,
}

/// No two routes of the list have the same path.
pub open spec fn siblings_distinct(routes: Seq<Route>) -> bool {
    forall|i: int, j: int|
        0 <= i < j < routes.len() ==> #[trigger] routes[i].path@ != #[trigger] routes[j].path@
}

/// Every list of the tree, at every depth, has routes with distinct paths; in particular at
/// most one fallback.
pub open spec fn well_formed(list: RouteList) -> bool
    decreases list,
{
    &&& siblings_distinct(list.routes@)
    &&& forall|i: int|
        0 <= i < list.routes@.len() ==> match (#[trigger] list.routes@[i]).next_routes {
            Some(nested) => well_formed(nested),
            None => true,
        }
}

/// A successful single-level match.
#[derive(Debug)]
pub struct RouteOutput<'a> {
    /// What follows the first `/` after the matched segment, if the path had one.
    pub sub_path: Option<String>,
    /// The route that accepted the path.
    pub route: &'a Route,
    /// The named capture bound by a `:name` route, as `(name, segment)`.
    pub params: Vec<(String, String)>,
}

/// What a successful match is, as plain values.
pub struct MatchModel {
    pub index: int,
    pub route: Route,
    pub sub_path: Option<Seq<char>>,
    pub params: Seq<(Seq<char>, Seq<char>)>,
}

pub open spec fn is_illegal_char(c: char) -> bool {
    (c as u32) < 0x20 || c == '\u{7f}' || c == ' ' || c == '?' || c == '#'
}

/// A path may not hold control characters, spaces, or the query and fragment markers.
pub open spec fn is_valid_path(p: Seq<char>) -> bool {
    forall|i: int| 0 <= i < p.len() ==> !is_illegal_char(#[trigger] p[i])
}

/// At most one leading slash is dropped.
pub open spec fn strip_leading(p: Seq<char>) -> Seq<char> {
    if p.len() > 0 && p[0] == '/' {
        p.subrange(1, p.len() as int)
    } else {
        p
    }
}

/// `k` is where the first segment of `s` ends: at the first `/`, or at the end.
pub open spec fn is_segment_end(s: Seq<char>, k: int) -> bool {
    &&& 0 <= k <= s.len()
    &&& forall|j: int| 0 <= j < k ==> s[j] != '/'
    &&& (k == s.len() || s[k] == '/')
}

pub open spec fn segment_end(s: Seq<char>) -> int {
    choose|k: int| is_segment_end(s, k)
}

pub open spec fn first_segment(s: Seq<char>) -> Seq<char> {
    s.subrange(0, segment_end(s))
}

/// What follows the first `/`, if there is one.
pub open spec fn remainder(s: Seq<char>) -> Option<Seq<char>> {
    if segment_end(s) < s.len() {
        Some(s.subrange(segment_end(s) + 1, s.len() as int))
    } else {
        None
    }
}

/// A path with its leading slash dropped is empty, up to one trailing slash.
pub open spec fn is_index_path(p: Seq<char>) -> bool {
    p.len() == 0 || p == seq!['/']
}

pub open spec fn is_wildcard(rp: Seq<char>) -> bool {
    rp == seq!['*']
}

pub open spec fn is_param(rp: Seq<char>) -> bool {
    rp.len() > 0 && rp[0] == ':'
}

/// Whether a route whose path is `rp` accepts the path `p` (leading slash already dropped).
pub open spec fn accepts(rp: Seq<char>, p: Seq<char>) -> bool {
    if rp.len() == 0 {
        is_index_path(p)
    } else if is_wildcard(rp) {
        true
    } else if is_param(rp) {
        first_segment(p).len() > 0
    } else {
        rp == first_segment(p)
    }
}

/// The first position at or after `i` whose route accepts `p`; `routes.len()` if there is none.
pub open spec fn first_accepting(routes: Seq<Route>, p: Seq<char>, i: int) -> int
    decreases routes.len() - i,
{
    if i < 0 || i >= routes.len() {
        routes.len() as int
    } else if accepts(routes[i].path@, p) {
        i
    } else {
        first_accepting(routes, p, i + 1)
    }
}

/// The captures that a route whose path is `rp` binds when it accepts `seg`.
pub open spec fn bound_params(rp: Seq<char>, seg: Seq<char>) -> Seq<(Seq<char>, Seq<char>)> {
    if is_param(rp) {
        seq![(rp.drop_first(), seg)]
    } else {
        seq![]
    }
}

/// The result of matching `path` against `list`, one level deep.
pub open spec fn match_spec(list: RouteList, path: Seq<char>) -> Result<MatchModel, MatchError> {
    if !is_valid_path(path) {
        Err(MatchError::InvalidPath)
    } else {
        let p = strip_leading(path);
        let i = first_accepting(list.routes@, p, 0);
        if i >= list.routes@.len() {
            Err(MatchError::NotFound)
        } else {
            let route = list.routes@[i];
            Ok(
                MatchModel {
                    index: i,
                    route,
                    sub_path: remainder(p),
                    params: bound_params(route.path@, first_segment(p)),
                },
            )
        }
    }
}

pub open spec fn opt_view(o: Option<String>) -> Option<Seq<char>> {
    match o {
        Some(s) => Some(s@),
        None => None,
    }
}

pub open spec fn params_view(v: Seq<(String, String)>) -> Seq<(Seq<char>, Seq<char>)> {
    v.map_values(|e: (String, String)| (e.0@, e.1@))
}

/// An output stands for a model when it holds the same route, remainder and captures.
pub open spec fn output_is(out: RouteOutput, m: MatchModel) -> bool {
    &&& *out.route == m.route
    &&& opt_view(out.sub_path) == m.sub_path
    &&& params_view(out.params@) == m.params
}

pub open spec fn result_is(r: Result<RouteOutput, MatchError>, expected: Result<MatchModel, MatchError>) -> bool {
    match (r, expected) {
        (Ok(out), Ok(m)) => output_is(out, m),
        (Err(e), Err(f)) => e == f,
        _ => false,
    }
}

/// The result of matching `path` through every level: one model per level, each later level
/// matching what the one before left over against the routes nested below its match.
pub open spec fn resolve_spec(list: RouteList, path: Seq<char>) -> Result<Seq<MatchModel>, MatchError>
    decreases path.len(),
{
    match match_spec(list, path) {
        Err(e) => Err(e),
        Ok(m) => match (m.route.next_routes, m.sub_path) {
            (Some(nested), Some(q)) => if q.len() < path.len() {
                match resolve_spec(nested, q) {
                    Ok(rest) => Ok(seq![m] + rest),
                    Err(e) => Err(e),
                }
            } else {
                Ok(seq![m])
            },
            _ => Ok(seq![m]),
        },
    }
}

pub open spec fn resolved_is(
    r: Result<Vec<RouteOutput>, MatchError>,
    expected: Result<Seq<MatchModel>, MatchError>,
) -> bool {
    match (r, expected) {
        (Ok(v), Ok(ms)) => v@.len() == ms.len() && forall|i: int|
            0 <= i < ms.len() ==> output_is(#[trigger] v@[i], ms[i]),
        (Err(e), Err(f)) => e == f,
        _ => false,
    }
}

/// What a match leaves over is shorter than the path it matched.
pub proof fn lemma_sub_path_shorter(list: RouteList, path: Seq<char>)
    ensures
        match_spec(list, path) matches Ok(m) ==> (m.sub_path matches Some(q) ==> q.len()
            < path.len()),
{
    lemma_segment_end(strip_leading(path), 0);
}

proof fn lemma_segment_end_from(s: Seq<char>, from: int)
    requires
        0 <= from <= s.len(),
        forall|j: int| 0 <= j < from ==> s[j] != '/',
    ensures
        is_segment_end(s, segment_end(s)),
    decreases s.len() - from,
{
    if from == s.len() || s[from] == '/' {
        assert(is_segment_end(s, from));
    } else {
        lemma_segment_end_from(s, from + 1);
    }
}

/// The end of the first segment exists and is the only position with its property.
pub proof fn lemma_segment_end(s: Seq<char>, k: int)
    ensures
        is_segment_end(s, segment_end(s)),
        is_segment_end(s, k) ==> k == segment_end(s),
{
    lemma_segment_end_from(s, 0);
    let e = segment_end(s);
    if is_segment_end(s, k) {
        if k < e {
            assert(s[k] == '/');
        } else if e < k {
            assert(s[e] == '/');
        }
    }
}

fn same_chars(a: &str, b: &str) -> (r: bool)
    ensures
        r == (a@ == b@),
{
    let n = a.unicode_len();
    if n != b.unicode_len() {
        return false;
    }
    let mut i: usize = 0;
    while i < n
        invariant
            n == a@.len(),
            n == b@.len(),
            i <= n,
            forall|j: int| 0 <= j < i ==> a@[j] == b@[j],
        decreases n - i,
    {
        if a.get_char(i) != b.get_char(i) {
            return false;
        }
        i = i + 1;
    }
    assert(a@ =~= b@);
    true
}

fn path_is_valid(p: &str) -> (r: bool)
    ensures
        r == is_valid_path(p@),
{
    let n = p.unicode_len();
    let mut i: usize = 0;
    while i < n
        invariant
            n == p@.len(),
            i <= n,
            forall|j: int| 0 <= j < i ==> !is_illegal_char(#[trigger] p@[j]),
        decreases n - i,
    {
        let c = p.get_char(i);
        if (c as u32) < 0x20 || c == '\u{7f}' || c == ' ' || c == '?' || c == '#' {
            return false;
        }
        i = i + 1;
    }
    true
}

/// Decides `accepts(rp@, p@)`, given the first segment of `p` and whether `p` is an index path.
fn route_accepts(rp: &str, p: &str, seg: &str, index: bool) -> (r: bool)
    requires
        seg@ == first_segment(p@),
        index == is_index_path(p@),
    ensures
        r == accepts(rp@, p@),
{
    let n = rp.unicode_len();
    if n == 0 {
        index
    } else if n == 1 && rp.get_char(0) == '*' {
        assert(rp@ =~= seq!['*']);
        true
    } else if rp.get_char(0) == ':' {
        proof {
            if is_wildcard(rp@) {
                assert(rp@[0] == '*');
            }
        }
        seg.unicode_len() > 0
    } else {
        proof {
            if is_wildcard(rp@) {
                assert(rp@[0] == '*');
            }
        }
        same_chars(rp, seg)
    }
}

impl RouteList {
    /// Matches `pathname` against this list, one level deep: the first route, in declaration
    /// order, that accepts the path wins. Routes nested below it are left to the caller, who
    /// hands them the returned `sub_path`.
    pub fn route<'a>(&'a self, pathname: &str) -> (r: Result<RouteOutput<'a>, MatchError>)
        ensures
            result_is(r, match_spec(*self, pathname@)),
    {
        if !path_is_valid(pathname) {
            return Err(MatchError::InvalidPath);
        }
        let n = pathname.unicode_len();
        let p: &str = if n > 0 && pathname.get_char(0) == '/' {
            pathname.substring_char(1, n)
        } else {
            pathname
        };
        assert(p@ == strip_leading(pathname@));
        let m = p.unicode_len();
        let mut k: usize = 0;
        while k < m && p.get_char(k) != '/'
            invariant
                m == p@.len(),
                k <= m,
                forall|j: int| 0 <= j < k ==> p@[j] != '/',
            decreases m - k,
        {
            k = k + 1;
        }
        proof {
            lemma_segment_end(p@, k as int);
        }
        let seg = p.substring_char(0, k);
        let sub_path = if k < m {
            Some(String::from_str(p.substring_char(k + 1, m)))
        } else {
            None
        };
        assert(opt_view(sub_path) == remainder(p@));
        let index = m == 0 || (m == 1 && p.get_char(0) == '/');
        proof {
            if m == 1 && p@[0] == '/' {
                assert(p@ =~= seq!['/']);
            }
        }
        let mut i: usize = 0;
        while i < self.routes.len()
            invariant
                i <= self.routes@.len(),
                seg@ == first_segment(p@),
                index == is_index_path(p@),
                opt_view(sub_path) == remainder(p@),
                p@ == strip_leading(pathname@),
                is_valid_path(pathname@),
                first_accepting(self.routes@, p@, 0) == first_accepting(self.routes@, p@, i as int),
            decreases self.routes@.len() - i,
        {
            let route = &self.routes[i];
            if route_accepts(route.path.as_str(), p, seg, index) {
                let mut params: Vec<(String, String)> = Vec::new();
                let rn = route.path.unicode_len();
                if rn > 0 && route.path.as_str().get_char(0) == ':' {
                    let name = String::from_str(route.path.as_str().substring_char(1, rn));
                    params.push((name, String::from_str(seg)));
                }
                let out = RouteOutput { sub_path, route, params };
                proof {
                    let rp = route.path@;
                    assert(params_view(out.params@) =~= bound_params(rp, seg@));
                    assert(first_accepting(self.routes@, p@, i as int) == i);
                    assert(opt_view(out.sub_path) == remainder(p@));
                }
                return Ok(out);
            }
            i = i + 1;
        }
        Err(MatchError::NotFound)
    }

    /// Accepts a tree whose lists hold no two routes with the same path.
    pub fn validate(&self) -> (r: Result<(), TreeError>)
        ensures
            r is Ok <==> well_formed(*self),
            r matches Err(e) ==> e == TreeError::DuplicatePath,
        decreases self,
    {
        let n = self.routes.len();
        let mut i: usize = 0;
        while i < n
            invariant
                n == self.routes@.len(),
                i <= n,
                forall|a: int, b: int|
                    0 <= a < i && a < b < n ==> #[trigger] self.routes@[a].path@
                        != #[trigger] self.routes@[b].path@,
                forall|a: int|
                    0 <= a < i ==> match (#[trigger] self.routes@[a]).next_routes {
                        Some(nested) => well_formed(nested),
                        None => true,
                    },
            decreases n - i,
        {
            let mut j: usize = i + 1;
            while j < n
                invariant
                    n == self.routes@.len(),
                    i < n,
                    i + 1 <= j <= n,
                    forall|b: int| i < b < j ==> self.routes@[i as int].path@ != #[trigger] self.routes@[b].path@,
                decreases n - j,
            {
                if self.routes[i].path == self.routes[j].path {
                    assert(!siblings_distinct(self.routes@)) by {
                        assert(self.routes@[i as int].path@ == self.routes@[j as int].path@);
                    }
                    return Err(TreeError::DuplicatePath);
                }
                j = j + 1;
            }
            match &self.routes[i].next_routes {
                Some(nested) => {
                    proof {
                        assert(decreases_to!(self => self.routes));
                        assert(decreases_to!(self.routes => self.routes[i as int]));
                    }
                    if nested.validate().is_err() {
                        return Err(TreeError::DuplicatePath);
                    }
                },
                None => {},
            }
            i = i + 1;
        }
        Ok(())
    }

    /// Matches `pathname` through every level: after each match, what is left over is matched
    /// against the routes nested below the matched route, as long as both are there.
    pub fn resolve<'a>(&'a self, pathname: &str) -> (r: Result<Vec<RouteOutput<'a>>, MatchError>)
        ensures
            resolved_is(r, resolve_spec(*self, pathname@)),
        decreases pathname@.len(),
    {
        proof {
            lemma_sub_path_shorter(*self, pathname@);
        }
        let out = match self.route(pathname) {
            Ok(out) => out,
            Err(e) => {
                return Err(e);
            },
        };
        let route: &'a Route = out.route;
        let mut rest: Vec<RouteOutput<'a>> = match (&route.next_routes, &out.sub_path) {
            (Some(nested), Some(q)) => match nested.resolve(q.as_str()) {
                Ok(rest) => rest,
                Err(e) => {
                    return Err(e);
                },
            },
            _ => Vec::new(),
        };
        let ghost rest0 = rest@;
        let mut v: Vec<RouteOutput<'a>> = Vec::new();
        v.push(out);
        v.append(&mut rest);
        proof {
            let ms = resolve_spec(*self, pathname@);
            assert(v@.len() == ms->Ok_0.len());
            assert forall|i: int| 0 <= i < v@.len() implies output_is(#[trigger] v@[i], ms->Ok_0[i]) by {
                if i > 0 {
                    assert(v@[i] == rest0[i - 1]);
                }
            }
        }
        Ok(v)
    }
}

} // verus!
