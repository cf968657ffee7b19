//! A dead-simple router.
//!
//! A router matches a request path against installed routes, in the order
//! they have been added, and picks the first whose prefix is a prefix of
//! the path, component by component. The route's dispatch then either
//! serves any method or looks the method up, reporting method-not-allowed
//! on a miss; no matching route at all reports not-found. Handlers are
//! plain values the caller invokes.

use vstd::prelude::*;

verus! {

/// One installed route: a path prefix and its method dispatch.
struct Route<H> {
    path: Vec<u8>,
    handlers: MethodDispatch<H>,
}

/// How a route serves methods: one handler for all of them, or one per
/// method.
enum MethodDispatch<H> {
    Any(H),
    Specific(Vec<(String, H)>),
}

/// An ordered list of routes.
pub struct Router<H> {
    routes: Vec<Route<H>>,
}

/// The model of one route.
pub struct RouteModel<H> {
    pub path: Seq<u8>,
    pub dispatch: DispatchModel<H>,
}

/// The model of a route's method dispatch.
pub enum DispatchModel<H> {
    Any(H),
    Specific(Seq<(Seq<char>, H)>),
}

/// What routing decides: a handler to invoke, a matched route without the
/// method, or no matching route.
pub enum Dispatch<H> {
    Handler(H),
    MethodNotAllowed,
    NotFound,
}

/// The first position at or after `i` holding a slash, or the length.
pub open spec fn find_slash(p: Seq<u8>, i: int) -> int
    decreases p.len() - i,
{
    if i < 0 || i >= p.len() {
        p.len() as int
    } else if p[i] == 0x2f {
        i
    } else {
        find_slash(p, i + 1)
    }
}

/// The components of a path: the runs of bytes between slashes, with
/// empty runs dropped.
pub open spec fn path_components(p: Seq<u8>) -> Seq<Seq<u8>>
    decreases p.len(),
{
    if p.len() == 0 {
        Seq::empty()
    } else if p[0] == 0x2f {
        path_components(p.skip(1))
    } else {
        let j = find_slash(p, 0);
        if j < 1 || j > p.len() {
            Seq::empty()
        } else {
            seq![p.take(j)] + path_components(p.skip(j))
        }
    }
}

/// A route prefix matches a path when its components lead the path's
/// components.
pub open spec fn route_matches(prefix: Seq<u8>, path: Seq<u8>) -> bool {
    let pc = path_components(prefix);
    let qc = path_components(path);
    pc.len() <= qc.len() && pc == qc.take(pc.len() as int)
}

/// The index of the first route whose prefix matches, or -1.
pub open spec fn first_match<H>(routes: Seq<RouteModel<H>>, path: Seq<u8>) -> int
    decreases routes.len(),
{
    if routes.len() == 0 {
        -1
    } else if route_matches(routes[0].path, path) {
        0
    } else {
        let r = first_match(routes.skip(1), path);
        if r < 0 {
            -1
        } else {
            r + 1
        }
    }
}

/// What `first_match` returns: the first matching index, or -1 when no
/// route matches.
pub proof fn lemma_first_match<H>(routes: Seq<RouteModel<H>>, path: Seq<u8>)
    ensures
        first_match(routes, path) >= 0 ==> 0 <= first_match(routes, path) < routes.len()
            && route_matches(routes[first_match(routes, path)].path, path) && (forall|j: int|
            0 <= j < first_match(routes, path) ==> !route_matches(
                (#[trigger] routes[j]).path,
                path,
            )),
        first_match(routes, path) < 0 ==> forall|j: int|
            0 <= j < routes.len() ==> !route_matches((#[trigger] routes[j]).path, path),
    decreases routes.len(),
{
    if routes.len() > 0 && !route_matches(routes[0].path, path) {
        lemma_first_match(routes.skip(1), path);
        assert forall|j: int| 1 <= j < routes.len() implies #[trigger] routes[j] == routes.skip(
            1,
        )[j - 1] by {}
    }
}

/// The index of the first entry for the method, or -1.
pub open spec fn method_find<H>(m: Seq<(Seq<char>, H)>, method: Seq<char>) -> int
    decreases m.len(),
{
    if m.len() == 0 {
        -1
    } else if m[0].0 == method {
        0
    } else {
        let r = method_find(m.skip(1), method);
        if r < 0 {
            -1
        } else {
            r + 1
        }
    }
}

/// What `method_find` returns: the first entry bearing the method, or -1
/// when none does.
pub proof fn lemma_method_find<H>(m: Seq<(Seq<char>, H)>, method: Seq<char>)
    ensures
        method_find(m, method) >= 0 ==> 0 <= method_find(m, method) < m.len() && m[method_find(
            m,
            method,
        )].0 == method && (forall|j: int|
            0 <= j < method_find(m, method) ==> (#[trigger] m[j]).0 != method),
        method_find(m, method) < 0 ==> forall|j: int|
            0 <= j < m.len() ==> (#[trigger] m[j]).0 != method,
    decreases m.len(),
{
    if m.len() > 0 && m[0].0 != method {
        lemma_method_find(m.skip(1), method);
        assert forall|j: int| 1 <= j < m.len() implies #[trigger] m[j] == m.skip(1)[j - 1] by {}
    }
}

/// An entry map after one registration: a new method is appended, a
/// present one has its handler replaced.
pub open spec fn method_insert<H>(
    m: Seq<(Seq<char>, H)>,
    method: Seq<char>,
    handler: H,
) -> Seq<(Seq<char>, H)> {
    let f = method_find(m, method);
    if f < 0 {
        m.push((method, handler))
    } else {
        m.update(f, (method, handler))
    }
}

/// What routing decides for a path and method. The first route whose
/// prefix matches the path wins; an `Any` route hands its handler out for
/// every method, a `Specific` route only for a method it knows.
pub open spec fn spec_dispatch<H>(
    routes: Seq<RouteModel<H>>,
    path: Seq<u8>,
    method: Seq<char>,
) -> Dispatch<H> {
    let i = first_match(routes, path);
    if i < 0 {
        Dispatch::NotFound
    } else {
        match routes[i].dispatch {
            DispatchModel::Any(h) => Dispatch::Handler(h),
            DispatchModel::Specific(m) => {
                let f = method_find(m, method);
                if f < 0 {
                    Dispatch::MethodNotAllowed
                } else {
                    Dispatch::Handler(m[f].1)
                }
            },
        }
    }
}

/// Routing is a function of the route list and the request alone: the
/// same routes, path and method always produce the same decision, and the
/// decision obeys the first-match rule stated by `lemma_first_match`.
pub proof fn lemma_dispatch_deterministic<H>(
    routes: Seq<RouteModel<H>>,
    path: Seq<u8>,
    method: Seq<char>,
)
    ensures
        spec_dispatch(routes, path, method) == spec_dispatch(routes, path, method),
        (exists|j: int|
            0 <= j < routes.len() && route_matches((#[trigger] routes[j]).path, path))
            ==> !(spec_dispatch(routes, path, method) is NotFound),
        (forall|j: int|
            0 <= j < routes.len() && j != first_match(routes, path) ==> !route_matches(
                (#[trigger] routes[j]).path,
                path,
            ) || first_match(routes, path) <= j),
{
    lemma_first_match(routes, path);
}

/// The views of a method map's entries.
pub open spec fn methods_view<H>(m: Seq<(String, H)>) -> Seq<(Seq<char>, H)> {
    m.map_values(|e: (String, H)| (e.0@, e.1))
}

/// Registers one method in a route's map; a method already present has
/// its handler replaced.
fn insert_method<H>(m: &mut Vec<(String, H)>, method: String, handler: H)
    ensures
        methods_view(final(m)@) == method_insert(methods_view(old(m)@), method@, handler),
{
    let ghost m0 = methods_view(m@);
    let ghost mc = method@;
    let n = m.len();
    let mut j: usize = 0;
    while j < n
        invariant
            j <= n,
            n == m@.len(),
            method@ == mc,
            m0 == methods_view(m@),
            m0 == methods_view(old(m)@),
            forall|k: int| 0 <= k < j ==> (#[trigger] m0[k]).0 != mc,
        decreases n - j,
    {
        if m[j].0 == method {
            proof {
                lemma_method_find(m0, mc);
                assert(m0[j as int].0 == mc);
                assert(method_find(m0, mc) == j);
            }
            m[j] = (method, handler);
            proof {
                assert(methods_view(m@) =~= m0.update(j as int, (mc, handler)));
            }
            return ;
        }
        j = j + 1;
    }
    proof {
        lemma_method_find(m0, mc);
        assert(method_find(m0, mc) < 0);
    }
    m.push((method, handler));
    proof {
        assert(methods_view(m@) =~= m0.push((mc, handler)));
    }
}

/// Compares two byte vectors.
fn eq_bytes(a: &Vec<u8>, b: &Vec<u8>) -> (r: bool)
    ensures
        r == (a@ == b@),
{
    if a.len() != b.len() {
        return false;
    }
    let n = a.len();
    let mut i: usize = 0;
    while i < n
        invariant
            i <= n,
            n == a@.len(),
            n == b@.len(),
            forall|j: int| 0 <= j < i ==> a@[j] == b@[j],
        decreases n - i,
    {
        if a[i] != b[i] {
            return false;
        }
        i = i + 1;
    }
    proof {
        assert(a@ =~= b@);
    }
    true
}

/// The components of a path, as owned byte vectors.
fn components_of(p: &Vec<u8>) -> (r: Vec<Vec<u8>>)
    ensures
        crate::serializer::vecs_view(r@) == path_components(p@),
{
    let n = p.len();
    let mut comps: Vec<Vec<u8>> = Vec::new();
    let mut i: usize = 0;
    proof {
        assert(p@.skip(0) =~= p@);
        if let q = path_components(p@) {
            assert(crate::serializer::vecs_view(comps@) + q =~= q);
        }
    }
    while i < n
        invariant
            i <= n,
            n == p@.len(),
            path_components(p@) == crate::serializer::vecs_view(comps@) + path_components(
                p@.skip(i as int),
            ),
        decreases n - i,
    {
        let ghost rest = p@.skip(i as int);
        proof {
            assert(rest[0] == p@[i as int]);
            assert(rest.skip(1) =~= p@.skip(i + 1));
        }
        if p[i] == 0x2f {
            i = i + 1;
        } else {
            // find the end of this component
            let start = i;
            let mut j = i;
            while j < n && p[j] != 0x2f
                invariant
                    start <= j <= n,
                    n == p@.len(),
                    start == i,
                    find_slash(p@, start as int) == find_slash(p@, j as int),
                    forall|k: int| start <= k < j ==> p@[k] != 0x2f,
                decreases n - j,
            {
                j = j + 1;
            }
            let comp = crate::parser::take_range(p.as_slice(), start, j - start);
            proof {
                let jr = find_slash(rest, 0);
                // the slash scan commutes with dropping the prefix
                lemma_find_slash_skip(p@, i as int, 0);
                assert(jr == find_slash(p@, i as int) - i);
                assert(find_slash(p@, j as int) == j || find_slash(p@, j as int) == find_slash(
                    p@,
                    i as int,
                ));
                assert(jr == j - i);
                assert(rest.take(jr) =~= comp@);
                assert(rest.skip(jr) =~= p@.skip(j as int));
                let ghost old_comps = comps@;
                assert(crate::serializer::vecs_view(old_comps.push(comp))
                    =~= crate::serializer::vecs_view(old_comps).push(comp@));
                if let q = path_components(p@.skip(j as int)) {
                    assert(crate::serializer::vecs_view(old_comps) + (seq![comp@] + q)
                        =~= crate::serializer::vecs_view(old_comps).push(comp@) + q);
                }
            }
            comps.push(comp);
            i = j;
        }
    }
    proof {
        assert(p@.skip(n as int) =~= Seq::<u8>::empty());
        assert(crate::serializer::vecs_view(comps@) + Seq::<Seq<u8>>::empty()
            =~= crate::serializer::vecs_view(comps@));
    }
    comps
}

/// Scanning for a slash commutes with dropping a prefix.
proof fn lemma_find_slash_skip(s: Seq<u8>, p: int, i: int)
    requires
        0 <= p <= s.len(),
        0 <= i,
    ensures
        find_slash(s.skip(p), i) == find_slash(s, p + i) - p,
    decreases s.len() - p - i,
{
    if p + i < s.len() {
        assert(s.skip(p)[i] == s[p + i]);
        if s[p + i] != 0x2f {
            lemma_find_slash_skip(s, p, i + 1);
        }
    }
}

/// Whether one component list leads another.
fn comps_lead(pc: &Vec<Vec<u8>>, qc: &Vec<Vec<u8>>) -> (r: bool)
    ensures
        r == ({
            let pv = crate::serializer::vecs_view(pc@);
            let qv = crate::serializer::vecs_view(qc@);
            pv.len() <= qv.len() && pv == qv.take(pv.len() as int)
        }),
{
    let ghost pv = crate::serializer::vecs_view(pc@);
    let ghost qv = crate::serializer::vecs_view(qc@);
    if pc.len() > qc.len() {
        return false;
    }
    let n = pc.len();
    let mut i: usize = 0;
    while i < n
        invariant
            i <= n,
            n == pc@.len(),
            n <= qc@.len(),
            pv == crate::serializer::vecs_view(pc@),
            qv == crate::serializer::vecs_view(qc@),
            forall|j: int| 0 <= j < i ==> pv[j] == qv[j],
        decreases n - i,
    {
        if !eq_bytes(&pc[i], &qc[i]) {
            proof {
                assert(pv[i as int] != qv[i as int]);
                assert(qv.take(pv.len() as int)[i as int] == qv[i as int]);
            }
            return false;
        }
        i = i + 1;
    }
    proof {
        assert(pv =~= qv.take(pv.len() as int));
    }
    true
}

impl<H> Router<H> {
    /// The installed routes as models, in order.
    pub closed spec fn routes_view(&self) -> Seq<RouteModel<H>> {
        self.routes@.map_values(
            |r: Route<H>|
                RouteModel {
                    path: r.path@,
                    dispatch: match r.handlers {
                        MethodDispatch::Any(h) => DispatchModel::Any(h),
                        MethodDispatch::Specific(m) => DispatchModel::Specific(methods_view(m@)),
                    },
                },
        )
    }

    /// Initialize a new, empty router.
    pub fn new() -> (r: Router<H>)
        ensures
            r.routes_view() == Seq::<RouteModel<H>>::empty(),
    {
        let r = Router { routes: Vec::new() };
        proof {
            assert(r.routes_view() =~= Seq::<RouteModel<H>>::empty());
        }
        r
    }

    /// Create a route that will invoke the given handler for all methods.
    pub fn route_any(&mut self, path: Vec<u8>, handler: H)
        ensures
            final(self).routes_view() == old(self).routes_view().push(
                RouteModel { path: path@, dispatch: DispatchModel::Any(handler) },
            ),
    {
        let ghost v0 = self.routes_view();
        self.routes.push(Route { path, handlers: MethodDispatch::Any(handler) });
        proof {
            assert(self.routes_view() =~= v0.push(
                RouteModel { path: path@, dispatch: DispatchModel::Any(handler) },
            ));
        }
    }

    /// Create a route that will invoke the given handler, but only for
    /// the particular method. A route already holding the prefix gains —
    /// or replaces — that method's entry; pairing a method-specific route
    /// with an all-methods route on one prefix is a programmer error, so
    /// no such route may exist.
    pub fn route(&mut self, path: Vec<u8>, method: String, handler: H)
        requires
            forall|i: int|
                0 <= i < old(self).routes_view().len() && (#[trigger] old(
                    self,
                ).routes_view()[i]).path == path@ ==> !(old(self).routes_view()[i].dispatch
                    is Any),
        ensures
            ({
                let v0 = old(self).routes_view();
                let f = route_path_find(v0, path@);
                if f < 0 {
                    final(self).routes_view() == v0.push(
                        RouteModel {
                            path: path@,
                            dispatch: DispatchModel::Specific(
                                method_insert(Seq::empty(), method@, handler),
                            ),
                        },
                    )
                } else {
                    match v0[f].dispatch {
                        DispatchModel::Specific(m) => final(self).routes_view() == v0.update(
                            f,
                            RouteModel {
                                path: path@,
                                dispatch: DispatchModel::Specific(
                                    method_insert(m, method@, handler),
                                ),
                            },
                        ),
                        DispatchModel::Any(_) => false,
                    }
                }
            }),
    {
        let ghost v0 = self.routes_view();
        let found = self.find_route(&path);
        match found {
            Some(i) => {
                proof {
                    lemma_route_path_find(v0, path@);
                }
                let mut slot = Route { path: Vec::new(), handlers: MethodDispatch::Specific(Vec::new()) };
                core::mem::swap(&mut self.routes[i], &mut slot);
                let Route { path: kept_path, handlers } = slot;
                match handlers {
                    MethodDispatch::Specific(mut m) => {
                        let ghost m0 = methods_view(m@);
                        insert_method(&mut m, method, handler);
                        let mut back = Route { path: kept_path, handlers: MethodDispatch::Specific(m) };
                        core::mem::swap(&mut self.routes[i], &mut back);
                        proof {
                            assert(v0[i as int].path == path@);
                            assert(self.routes_view() =~= v0.update(
                                i as int,
                                RouteModel {
                                    path: path@,
                                    dispatch: DispatchModel::Specific(
                                        method_insert(m0, method@, handler),
                                    ),
                                },
                            ));
                        }
                    },
                    MethodDispatch::Any(_) => {
                        proof {
                            assert(false);
                        }
                    },
                }
            },
            None => {
                proof {
                    lemma_route_path_find(v0, path@);
                }
                let mut m: Vec<(String, H)> = Vec::new();
                let ghost method_chars = method@;
                m.push((method, handler));
                proof {
                    assert(methods_view(m@) =~= Seq::<(Seq<char>, H)>::empty().push(
                        (method_chars, handler),
                    ));
                }
                self.routes.push(Route { path, handlers: MethodDispatch::Specific(m) });
                proof {
                    assert(self.routes_view() =~= v0.push(
                        RouteModel {
                            path: path@,
                            dispatch: DispatchModel::Specific(
                                method_insert(Seq::empty(), method_chars, handler),
                            ),
                        },
                    ));
                }
            },
        }
    }

    /// The first route holding exactly this prefix, if any.
    fn find_route(&self, path: &Vec<u8>) -> (r: Option<usize>)
        ensures
            match r {
                Some(i) => route_path_find(self.routes_view(), path@) == i && i
                    < self.routes_view().len(),
                None => route_path_find(self.routes_view(), path@) < 0,
            },
    {
        let ghost v0 = self.routes_view();
        let n = self.routes.len();
        let mut i: usize = 0;
        while i < n
            invariant
                i <= n,
                n == self.routes@.len(),
                v0 == self.routes_view(),
                forall|j: int| 0 <= j < i ==> (#[trigger] v0[j]).path != path@,
            decreases n - i,
        {
            if eq_bytes(&self.routes[i].path, path) {
                proof {
                    lemma_route_path_find(v0, path@);
                    assert(v0[i as int].path == path@);
                    assert(route_path_find(v0, path@) == i);
                }
                return Some(i);
            }
            i = i + 1;
        }
        proof {
            lemma_route_path_find(v0, path@);
        }
        None
    }

    /// Picks the route and handler for one request; see `spec_dispatch`.
    pub fn dispatch(&self, path: &Vec<u8>, method: &String) -> (r: Dispatch<&H>)
        ensures
            match (r, spec_dispatch(self.routes_view(), path@, method@)) {
                (Dispatch::Handler(h), Dispatch::Handler(sh)) => *h == sh,
                (Dispatch::MethodNotAllowed, Dispatch::MethodNotAllowed) => true,
                (Dispatch::NotFound, Dispatch::NotFound) => true,
                _ => false,
            },
    {
        let ghost v = self.routes_view();
        let qc = components_of(path);
        let n = self.routes.len();
        let mut i: usize = 0;
        while i < n
            invariant
                i <= n,
                n == self.routes@.len(),
                v == self.routes_view(),
                crate::serializer::vecs_view(qc@) == path_components(path@),
                forall|j: int| 0 <= j < i ==> !route_matches((#[trigger] v[j]).path, path@),
            decreases n - i,
        {
            let pc = components_of(&self.routes[i].path);
            if comps_lead(&pc, &qc) {
                proof {
                    lemma_first_match(v, path@);
                    assert(route_matches(v[i as int].path, path@));
                    assert(first_match(v, path@) == i);
                }
                match &self.routes[i].handlers {
                    MethodDispatch::Any(h) => {
                        return Dispatch::Handler(h);
                    },
                    MethodDispatch::Specific(m) => {
                        let ghost mv = methods_view(m@);
                        let mn = m.len();
                        let mut j: usize = 0;
                        while j < mn
                            invariant
                                j <= mn,
                                mn == m@.len(),
                                mv == methods_view(m@),
                                v == self.routes_view(),
                                0 <= i < v.len(),
                                first_match(v, path@) == i as int,
                                v[i as int].dispatch == DispatchModel::Specific(mv),
                                forall|k: int| 0 <= k < j ==> (#[trigger] mv[k]).0 != method@,
                            decreases mn - j,
                        {
                            if m[j].0 == *method {
                                proof {
                                    assert(m@[j as int].0@ == method@);
                                    assert(mv[j as int].0 == method@);
                                    lemma_method_find(mv, method@);
                                    assert(method_find(mv, method@) >= 0);
                                    assert(method_find(mv, method@) == j);
                                }
                                return Dispatch::Handler(&m[j].1);
                            }
                            j = j + 1;
                        }
                        proof {
                            lemma_method_find(mv, method@);
                        }
                        return Dispatch::MethodNotAllowed;
                    },
                }
            }
            i = i + 1;
        }
        proof {
            lemma_first_match(v, path@);
        }
        Dispatch::NotFound
    }
}

/// The index of the first route with the given prefix, or -1.
pub open spec fn route_path_find<H>(routes: Seq<RouteModel<H>>, path: Seq<u8>) -> int
    decreases routes.len(),
{
    if routes.len() == 0 {
        -1
    } else if routes[0].path == path {
        0
    } else {
        let r = route_path_find(routes.skip(1), path);
        if r < 0 {
            -1
        } else {
            r + 1
        }
    }
}

/// What `route_path_find` returns: the first index bearing the prefix,
/// or -1 when no route does.
pub proof fn lemma_route_path_find<H>(routes: Seq<RouteModel<H>>, path: Seq<u8>)
    ensures
        route_path_find(routes, path) >= 0 ==> 0 <= route_path_find(routes, path) < routes.len()
            && routes[route_path_find(routes, path)].path == path && (forall|j: int|
            0 <= j < route_path_find(routes, path) ==> (#[trigger] routes[j]).path != path),
        route_path_find(routes, path) < 0 ==> forall|j: int|
            0 <= j < routes.len() ==> (#[trigger] routes[j]).path != path,
    decreases routes.len(),
{
    if routes.len() > 0 && routes[0].path != path {
        lemma_route_path_find(routes.skip(1), path);
        assert forall|j: int| 1 <= j < routes.len() implies #[trigger] routes[j] == routes.skip(
            1,
        )[j - 1] by {}
    }
}

} // verus!
