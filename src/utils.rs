use vstd::prelude::*;

verus! {

/// `path` without one trailing slash, if it ends in one.
pub open spec fn without_trailing_slash(path: Seq<char>) -> Seq<char> {
    if path.len() > 0 && path.last() == '/' {
        path.drop_last()
    } else {
        path
    }
}

pub fn strip_slash_suffix(path: &str) -> (r: &str)
    ensures
        r@ == without_trailing_slash(path@),
{
    let n = path.unicode_len();
    if n > 0 && path.get_char(n - 1) == '/' {
        path.substring_char(0, n - 1)
    } else {
        path
    }
}

/// The base path that a document's `<base href>` pathname gives: none for the root,
/// else the pathname without one trailing slash.
pub fn base_from_pathname(pathname: &str) -> (r: Option<String>)
    ensures
        r matches None <==> pathname@ == seq!['/'],
        r matches Some(b) ==> b@ == without_trailing_slash(pathname@),
{
    if pathname.unicode_len() == 1 && pathname.get_char(0) == '/' {
        assert(pathname@ =~= seq!['/']);
        None
    } else {
        Some(String::from_str(strip_slash_suffix(pathname)))
    }
}

/// A base path, fetched at most once and then read from here.
pub struct BaseUrlCache {
    loaded: Option<Option<String>>,
}

pub open spec fn opt_string_view(o: Option<String>) -> Option<Seq<char>> {
    match o {
        Some(s) => Some(s@),
        None => None,
    }
}

impl BaseUrlCache {
    /// What the cache holds: `None` before the first fetch, then what it gave.
    pub closed spec fn view(&self) -> Option<Option<Seq<char>>> {
        match self.loaded {
            Some(v) => Some(opt_string_view(v)),
            None => None,
        }
    }

    pub fn new() -> (r: Self)
        ensures
            r@ == None::<Option<Seq<char>>>,
    {
        BaseUrlCache { loaded: None }
    }
}

/// The base path: the cached one if there is one, else what `fetch` returns, which the
/// cache then keeps for every later call.
pub fn base_url<F: FnOnce() -> Option<String>>(cache: &mut BaseUrlCache, fetch: F) -> (r: Option<String>)
    requires
        fetch.requires(()),
    ensures
        old(cache)@ matches Some(v) ==> opt_string_view(r) == v && final(cache)@ == old(cache)@,
        old(cache)@ is None ==> fetch.ensures((), r) && final(cache)@ == Some(opt_string_view(r)),
{
    if cache.loaded.is_none() {
        let fetched = fetch();
        let kept = match &fetched {
            Some(s) => Some(s.clone()),
            None => None,
        };
        cache.loaded = Some(kept);
        fetched
    } else {
        match &cache.loaded {
            Some(Some(s)) => Some(s.clone()),
            _ => None,
        }
    }
}

/// The characters of Unicode's `White_Space` property.
pub open spec fn is_white_space(c: char) -> bool {
    let u = c as u32;
    ||| 0x09 <= u <= 0x0d
    ||| u == 0x20
    ||| u == 0x85
    ||| u == 0xa0
    ||| u == 0x1680
    ||| 0x2000 <= u <= 0x200a
    ||| u == 0x2028
    ||| u == 0x2029
    ||| u == 0x202f
    ||| u == 0x205f
    ||| u == 0x3000
}

pub open spec fn trimmed_start(s: Seq<char>) -> Seq<char>
    decreases s.len(),
{
    if s.len() > 0 && is_white_space(s[0]) {
        trimmed_start(s.drop_first())
    } else {
        s
    }
}

pub open spec fn trimmed_end(s: Seq<char>) -> Seq<char>
    decreases s.len(),
{
    if s.len() > 0 && is_white_space(s.last()) {
        trimmed_end(s.drop_last())
    } else {
        s
    }
}

/// `s` without its leading and trailing white space.
pub open spec fn trimmed(s: Seq<char>) -> Seq<char> {
    trimmed_end(trimmed_start(s))
}

/// Relies on `str::trim`: the string without leading and trailing characters of Unicode's
/// `White_Space` property.
#[verifier::external_body]
fn trim(s: &str) -> (r: &str)
    ensures
        r@ == trimmed(s@),
{
    s.trim()
}

/// `pathname` with the query `query` affixed, when there is one.
pub open spec fn composed(pathname: Seq<char>, query: Seq<char>) -> Seq<char> {
    if query.len() > 0 {
        pathname + seq!['?'] + query
    } else {
        pathname
    }
}

/// Affixes a query that is already trimmed to `pathname`.
pub fn compose_trimmed(pathname: &str, query: &str) -> (r: Option<String>)
    ensures
        r matches Some(s) && s@ == composed(pathname@, query@),
{
    let mut s = String::from_str(pathname);
    if query.unicode_len() > 0 {
        let q = "?";
        proof {
            reveal_strlit("?");
        }
        s.append(q);
        s.append(query);
        assert(s@ =~= composed(pathname@, query@));
    }
    Some(s)
}

/// Affixes `query`, trimmed, to `pathname`; an empty query leaves the path alone.
pub fn compose_path(pathname: &str, query: &str) -> (r: Option<String>)
    ensures
        r matches Some(s) && s@ == composed(pathname@, trimmed(query@)),
{
    compose_trimmed(pathname, trim(query))
}

} // verus!
