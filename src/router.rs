//! Routes, route groups and the table that selects a group by the longest
//! registered base path. Handlers and middleware are named by numbers; whoever
//! runs the server keeps the callbacks under those numbers.
use vstd::prelude::*;
use crate::path::{covers, covers_path, same_text};

verus! {

/// Index of the last key equal to `k`, or -1.
pub open spec fn last_match(keys: Seq<Seq<char>>, k: Seq<char>) -> int
    decreases keys.len(),
{
    if keys.len() == 0 {
        -1
    } else if keys.last() == k {
        keys.len() - 1
    } else {
        last_match(keys.drop_last(), k)
    }
}

pub proof fn lemma_last_match_bounds(keys: Seq<Seq<char>>, k: Seq<char>)
    ensures
        -1 <= last_match(keys, k) < keys.len(),
        last_match(keys, k) >= 0 ==> keys[last_match(keys, k)] == k,
        forall|j: int| last_match(keys, k) < j < keys.len() ==> keys[j] != k,
    decreases keys.len(),
{
    if keys.len() > 0 {
        lemma_last_match_bounds(keys.drop_last(), k);
        if keys.last() != k {
            assert forall|j: int| last_match(keys, k) < j < keys.len() implies keys[j] != k by {
                if j < keys.len() - 1 {
                    assert(keys[j] == keys.drop_last()[j]);
                }
            }
        }
    }
}

/// The keys of a list of keyed entries.
pub open spec fn keys_of<V>(entries: Seq<(String, V)>) -> Seq<Seq<char>> {
    entries.map_values(|e: (String, V)| e.0@)
}

/// Index of the last entry whose key is `k`, if any.
pub fn find_key<V>(entries: &Vec<(String, V)>, k: &str) -> (r: Option<usize>)
    ensures
        r is None ==> last_match(keys_of(entries@), k@) == -1,
        r matches Some(i) ==> last_match(keys_of(entries@), k@) == i,
{
    let ghost keys = keys_of(entries@);
    let mut i: usize = entries.len();
    assert(keys.subrange(0, i as int) =~= keys);
    while i > 0
        invariant
            i <= entries@.len() == keys.len(),
            keys == keys_of(entries@),
            last_match(keys, k@) == last_match(keys.subrange(0, i as int), k@),
        decreases i,
    {
        let same = same_text(entries[i - 1].0.as_str(), k);
        assert(keys.subrange(0, i as int).drop_last() =~= keys.subrange(0, i - 1));
        assert(keys[i - 1] == entries@[i - 1].0@);
        if same {
            assert(keys.subrange(0, i as int).last() == k@);
            return Some(i - 1);
        }
        i = i - 1;
    }
    assert(keys.subrange(0, 0).len() == 0);
    None
}

/// The path under which a group with base path `base` registers the sub-path
/// `sub`: the two joined, with one `/` where both bring one.
pub open spec fn route_path(base: Seq<char>, sub: Seq<char>) -> Seq<char> {
    if base.len() > 0 && base.last() == '/' && sub.len() > 0 && sub[0] == '/' {
        base + sub.drop_first()
    } else {
        base + sub
    }
}

/// What a list of keyed handler entries maps `k` to: the last entry under `k`.
pub open spec fn entry_for<V>(entries: Seq<(String, V)>, k: Seq<char>) -> Option<V> {
    let i = last_match(keys_of(entries), k);
    if i >= 0 {
        Some(entries[i].1)
    } else {
        None
    }
}

/// The handlers of one exact path, by HTTP method.
pub struct Route {
    pub method_map: Vec<(String, usize)>,
}

impl Route {
    /// The handler registered for `method`.
    pub open spec fn handler(&self, method: Seq<char>) -> Option<usize> {
        entry_for(self.method_map@, method)
    }

    /// A route with no handlers.
    pub fn new() -> (r: Route)
        ensures
            forall|m: Seq<char>| r.handler(m) is None,
    {
        let r = Route { method_map: Vec::new() };
        assert forall|m: Seq<char>| r.handler(m) is None by {
            lemma_last_match_bounds(keys_of(r.method_map@), m);
        }
        r
    }

    /// Registers `handler` for `method`, replacing what was there.
    pub fn insert(&mut self, method: &str, handler: usize)
        ensures
            forall|m: Seq<char>| #[trigger] final(self).handler(m)
                == if m == method@ { Some(handler) } else { old(self).handler(m) },
    {
        let ghost before = self.method_map@;
        self.method_map.push((method.to_string(), handler));
        let ghost after = self.method_map@;
        assert(keys_of(after).drop_last() =~= keys_of(before));
        assert forall|m: Seq<char>| #[trigger] self.handler(m)
            == if m == method@ { Some(handler) } else { old(self).handler(m) } by {
            lemma_last_match_bounds(keys_of(before), m);
            if m != method@ {
                let i = last_match(keys_of(before), m);
                if i >= 0 {
                    assert(after[i] == before[i]);
                }
            }
        }
    }

    /// The handler registered for `method`, if any.
    pub fn get(&self, method: &str) -> (r: Option<usize>)
        ensures
            r == self.handler(method@),
    {
        match find_key(&self.method_map, method) {
            Some(i) => {
                proof {
                    lemma_last_match_bounds(keys_of(self.method_map@), method@);
                }
                Some(self.method_map[i].1)
            },
            None => None,
        }
    }
}

/// The path under which a group with base path `base` registers `sub`.
pub fn join_route_path(base: &str, sub: &str) -> (r: String)
    ensures
        r@ == route_path(base@, sub@),
{
    let bn = base.unicode_len();
    let sn = sub.unicode_len();
    let mut out = String::from_str(base);
    if bn > 0 && base.get_char(bn - 1) == '/' && sn > 0 && sub.get_char(0) == '/' {
        let rest = sub.substring_char(1, sn);
        assert(rest@ =~= sub@.drop_first());
        out.append(rest);
    } else {
        out.append(sub);
    }
    out
}

/// A route group: a base path, the middleware run on every request the group
/// receives (in registration order), and the routes keyed by their full path.
pub struct Router {
    pub base_path: String,
    pub middleware: Vec<usize>,
    pub routes: Vec<(String, Route)>,
}

impl Router {
    /// The route registered under the full path `path`.
    pub open spec fn route_at(&self, path: Seq<char>) -> Option<Route> {
        entry_for(self.routes@, path)
    }

    /// The handler that a request for `path` with `method` reaches in this group.
    pub open spec fn handler_for(&self, path: Seq<char>, method: Seq<char>) -> Option<usize> {
        match self.route_at(path) {
            Some(r) => r.handler(method),
            None => None,
        }
    }

    /// An empty group with the given base path.
    pub fn new(base_path: &str) -> (r: Router)
        ensures
            r.base_path@ == base_path@,
            r.middleware@.len() == 0,
            forall|p: Seq<char>| r.route_at(p) is None,
    {
        let r = Router { base_path: base_path.to_string(), middleware: Vec::new(), routes: Vec::new() };
        assert forall|p: Seq<char>| r.route_at(p) is None by {
            lemma_last_match_bounds(keys_of(r.routes@), p);
        }
        r
    }

    /// Appends a middleware; middleware runs in the order it was added.
    pub fn add_middleware(&mut self, middleware: usize)
        ensures
            final(self).middleware@ == old(self).middleware@.push(middleware),
            final(self).base_path == old(self).base_path,
            final(self).routes@ == old(self).routes@,
    {
        self.middleware.push(middleware);
    }

    /// Registers `handler` for `method` on the sub-path `subpath` of this
    /// group; a handler registered before for the same pair is replaced.
    pub fn route(&mut self, subpath: &str, method: &str, handler: usize)
        ensures
            final(self).base_path == old(self).base_path,
            final(self).middleware == old(self).middleware,
            forall|p: Seq<char>, m: Seq<char>| #[trigger] final(self).handler_for(p, m)
                == if p == route_path(old(self).base_path@, subpath@) && m == method@ {
                    Some(handler)
                } else {
                    old(self).handler_for(p, m)
                },
    {
        let full = join_route_path(self.base_path.as_str(), subpath);
        let ghost before = self.routes@;
        let ghost fp = full@;
        proof {
            lemma_last_match_bounds(keys_of(before), fp);
        }
        match find_key(&self.routes, full.as_str()) {
            Some(i) => {
                self.routes[i].1.insert(method, handler);
                let ghost after = self.routes@;
                assert(keys_of(after) =~= keys_of(before));
                assert forall|p: Seq<char>, m: Seq<char>| #[trigger] self.handler_for(p, m)
                    == if p == fp && m == method@ { Some(handler) } else { old(self).handler_for(p, m) } by {
                    let j = last_match(keys_of(before), p);
                    lemma_last_match_bounds(keys_of(before), p);
                    if j >= 0 && j != i {
                        assert(after[j] == before[j]);
                    }
                }
            },
            None => {
                let mut r = Route::new();
                r.insert(method, handler);
                self.routes.push((full, r));
                let ghost after = self.routes@;
                assert(keys_of(after).drop_last() =~= keys_of(before));
                assert forall|p: Seq<char>, m: Seq<char>| #[trigger] self.handler_for(p, m)
                    == if p == fp && m == method@ { Some(handler) } else { old(self).handler_for(p, m) } by {
                    lemma_last_match_bounds(keys_of(before), p);
                    if p != fp {
                        let j = last_match(keys_of(before), p);
                        if j >= 0 {
                            assert(after[j] == before[j]);
                        }
                    }
                }
            },
        }
    }

    /// The route registered under the full path `path`, if any.
    pub fn find_route(&self, path: &str) -> (r: Option<&Route>)
        ensures
            r matches Some(x) ==> self.route_at(path@) == Some(*x),
            r is None ==> self.route_at(path@) is None,
    {
        match find_key(&self.routes, path) {
            Some(i) => {
                proof {
                    lemma_last_match_bounds(keys_of(self.routes@), path@);
                }
                Some(&self.routes[i].1)
            },
            None => None,
        }
    }

    /// The handler that a request for `path` with `method` reaches here.
    pub fn find_handler(&self, path: &str, method: &str) -> (r: Option<usize>)
        ensures
            r == self.handler_for(path@, method@),
    {
        match self.find_route(path) {
            Some(route) => route.get(method),
            None => None,
        }
    }
}

/// Among `bases`, the index of the longest one that covers `p`; of equally
/// long ones the last.
pub open spec fn deepest(bases: Seq<Seq<char>>, p: Seq<char>) -> Option<int>
    decreases bases.len(),
{
    if bases.len() == 0 {
        None
    } else {
        let i = bases.len() - 1;
        let r = deepest(bases.drop_last(), p);
        if covers(bases[i], p) && (r is None || bases[r->0].len() <= bases[i].len()) {
            Some(i)
        } else {
            r
        }
    }
}

/// What `deepest` picks: a covering base that no other covering base is
/// longer than; nothing only when no base covers `p`.
pub proof fn lemma_deepest(bases: Seq<Seq<char>>, p: Seq<char>)
    ensures
        deepest(bases, p) matches Some(i) ==> {
            &&& 0 <= i < bases.len()
            &&& covers(bases[i], p)
            &&& forall|j: int| 0 <= j < bases.len() && covers(bases[j], p)
                ==> bases[j].len() <= bases[i].len()
        },
        deepest(bases, p) is None ==> forall|j: int| 0 <= j < bases.len() ==> !covers(bases[j], p),
    decreases bases.len(),
{
    if bases.len() > 0 {
        let prev = bases.drop_last();
        lemma_deepest(prev, p);
        assert forall|j: int| 0 <= j < prev.len() implies prev[j] == bases[j] by {}
    }
}

/// The bases of a list of groups.
pub open spec fn bases_of(routers: Seq<Router>) -> Seq<Seq<char>> {
    routers.map_values(|r: Router| r.base_path@)
}

/// The registered route groups; a request goes to the group whose base path is
/// the longest that covers its path.
pub struct RouterTable {
    pub routers: Vec<Router>,
}

impl RouterTable {
    /// The base paths, in the order of the groups.
    pub open spec fn bases(&self) -> Seq<Seq<char>> {
        bases_of(self.routers@)
    }

    /// The group that a request for `path` goes to.
    pub open spec fn group_for(&self, path: Seq<char>) -> Option<int> {
        deepest(self.bases(), path)
    }

    /// The handler that a request for `path` with `method` reaches, where no
    /// middleware changes it.
    pub open spec fn handler_for(&self, path: Seq<char>, method: Seq<char>) -> Option<usize> {
        match self.group_for(path) {
            Some(i) => self.routers@[i].handler_for(path, method),
            None => None,
        }
    }

    /// A table with no groups.
    pub fn new() -> (r: RouterTable)
        ensures
            r.routers@.len() == 0,
    {
        RouterTable { routers: Vec::new() }
    }

    /// The index of the last group registered under `base`, if any.
    pub fn position(&self, base: &str) -> (r: Option<usize>)
        ensures
            r is None ==> last_match(self.bases(), base@) == -1,
            r matches Some(i) ==> last_match(self.bases(), base@) == i,
    {
        let ghost bases = self.bases();
        let mut i: usize = self.routers.len();
        assert(bases.subrange(0, i as int) =~= bases);
        while i > 0
            invariant
                i <= self.routers@.len() == bases.len(),
                bases == self.bases(),
                last_match(bases, base@) == last_match(bases.subrange(0, i as int), base@),
            decreases i,
        {
            let same = same_text(self.routers[i - 1].base_path.as_str(), base);
            assert(bases.subrange(0, i as int).drop_last() =~= bases.subrange(0, i - 1));
            assert(bases[i - 1] == self.routers@[i - 1].base_path@);
            if same {
                assert(bases.subrange(0, i as int).last() == base@);
                return Some(i - 1);
            }
            i = i - 1;
        }
        assert(bases.subrange(0, 0).len() == 0);
        None
    }

    /// Registers a group. A group registered before under the same base path
    /// is replaced, in its place; otherwise the group is added at the end.
    pub fn router(&mut self, router: Router)
        ensures
            ({
                let i = last_match(old(self).bases(), router.base_path@);
                if i >= 0 {
                    final(self).routers@ == old(self).routers@.update(i, router)
                } else {
                    final(self).routers@ == old(self).routers@.push(router)
                }
            }),
    {
        match self.position(router.base_path.as_str()) {
            Some(i) => {
                proof {
                    lemma_last_match_bounds(self.bases(), router.base_path@);
                }
                self.routers.set(i, router);
            },
            None => {
                self.routers.push(router);
            },
        }
    }

    /// The index of the group that a request for `path` goes to, if any.
    pub fn search(&self, path: &str) -> (r: Option<usize>)
        ensures
            r matches Some(i) ==> self.group_for(path@) == Some(i as int) && i < self.routers@.len(),
            r is None ==> self.group_for(path@) is None,
    {
        let ghost bases = self.bases();
        let n = self.routers.len();
        let mut best: Option<usize> = None;
        let mut best_len: usize = 0;
        let mut i: usize = 0;
        while i < n
            invariant
                i <= n == self.routers@.len() == bases.len(),
                bases == self.bases(),
                match best {
                    Some(b) => deepest(bases.subrange(0, i as int), path@) == Some(b as int)
                        && b < i && best_len == bases[b as int].len(),
                    None => deepest(bases.subrange(0, i as int), path@) is None,
                },
            decreases n - i,
        {
            let base = self.routers[i].base_path.as_str();
            assert(base@ == bases[i as int]);
            assert(bases.subrange(0, i + 1).drop_last() =~= bases.subrange(0, i as int));
            if covers_path(base, path) {
                let len = base.unicode_len();
                if best.is_none() || best_len <= len {
                    best = Some(i);
                    best_len = len;
                }
            }
            i = i + 1;
        }
        assert(bases.subrange(0, n as int) =~= bases);
        best
    }

    /// Registers `handler` for `method` on `path` in the group with base path
    /// `/`, which is added first where there is none.
    pub fn route(&mut self, path: &str, method: &str, handler: usize)
        ensures
            ({
                let i = last_match(old(self).bases(), seq!['/']);
                let g = if i >= 0 { i } else { old(self).routers@.len() as int };
                &&& final(self).bases() == if i >= 0 {
                    old(self).bases()
                } else {
                    old(self).bases().push(seq!['/'])
                }
                &&& forall|k: int| 0 <= k < old(self).routers@.len() && k != g
                    ==> final(self).routers@[k] == old(self).routers@[k]
                &&& forall|p: Seq<char>, m: Seq<char>| #[trigger] final(self).routers@[g].handler_for(p, m)
                    == if p == route_path(seq!['/'], path@) && m == method@ {
                        Some(handler)
                    } else if i >= 0 {
                        old(self).routers@[i].handler_for(p, m)
                    } else {
                        None
                    }
                &&& final(self).routers@[g].middleware@ == if i >= 0 {
                    old(self).routers@[i].middleware@
                } else {
                    Seq::empty()
                }
            }),
    {
        proof {
            reveal_strlit("/");
            assert("/"@ =~= seq!['/']);
            lemma_last_match_bounds(self.bases(), seq!['/']);
        }
        let ghost old_bases = self.bases();
        assert(old_bases.len() == self.routers@.len());
        match self.position("/") {
            Some(i) => {
                self.routers[i].route(path, method, handler);
                assert(self.bases() =~= old_bases);
            },
            None => {
                let mut group = Router::new("/");
                group.route(path, method, handler);
                self.routers.push(group);
                assert(self.bases().len() == old_bases.len() + 1);
                assert(self.bases() =~= old_bases.push(seq!['/']));
            },
        }
    }
}

} // verus!
