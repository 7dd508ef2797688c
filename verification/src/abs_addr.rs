//! Abstract addresses: the values that a reference or an address may hold.

use crate::access_path::{
    lemma_path_set_push, path_set, AccessPath, Offset, OffsetView, PathView, StructKey,
    StructKeyView,
};
use crate::domain::{AbstractDomain, JoinResult};
use vstd::prelude::*;

verus! {

/// One value that a reference or an address may hold.
#[derive(Debug, PartialEq, Eq)]
pub enum Addr {
    /// Whatever the path holds in the frame of the analysed procedure.
    Footprint(AccessPath),
    /// A statically known address.
    Constant(u128),
}

/// The mathematical value of an [`Addr`].
pub enum AddrView {
    Footprint(PathView),
    Constant(u128),
}

impl View for Addr {
    type V = AddrView;

    open spec fn view(&self) -> AddrView {
        match self {
            Addr::Footprint(p) => AddrView::Footprint(p@),
            Addr::Constant(c) => AddrView::Constant(*c),
        }
    }
}

impl Clone for Addr {
    fn clone(&self) -> (r: Self)
        ensures
            r@ == self@,
    {
        match self {
            Addr::Footprint(p) => Addr::Footprint(p.clone()),
            Addr::Constant(c) => Addr::Constant(*c),
        }
    }
}

impl Addr {
    /// Whether two addresses are the same address.
    pub fn same(&self, other: &Addr) -> (r: bool)
        ensures
            r == (self@ == other@),
    {
        match (self, other) {
            (Addr::Footprint(p), Addr::Footprint(q)) => p.same(q),
            (Addr::Constant(c), Addr::Constant(d)) => *c == *d,
            _ => false,
        }
    }
}

/// The paths among the addresses `s`.
pub open spec fn footprints(s: Set<AddrView>) -> Set<PathView> {
    Set::new(|p: PathView| s.contains(AddrView::Footprint(p)))
}

/// Each path among the addresses `s`, extended by `offset`.
pub open spec fn extend_footprints(s: Set<AddrView>, offset: OffsetView) -> Set<PathView> {
    Set::new(
        |q: PathView|
            exists|p: PathView| #[trigger]
                s.contains(AddrView::Footprint(p)) && q == p.push(offset),
    )
}

/// The path of the resource `key` published under the address `a`.
pub open spec fn global_path(a: AddrView, key: StructKeyView) -> PathView {
    match a {
        AddrView::Footprint(p) => p.push(OffsetView::Global(key)),
        AddrView::Constant(c) => PathView::resource(c, key),
    }
}

/// The paths of the resource `key` published under the addresses `s`.
pub open spec fn global_paths(s: Set<AddrView>, key: StructKeyView) -> Set<PathView> {
    Set::new(|q: PathView| exists|a: AddrView| #[trigger] s.contains(a) && q == global_path(a, key))
}

/// The addresses that stand for what the paths `paths` hold.
pub open spec fn addrs_of_paths(paths: Set<PathView>) -> Set<AddrView> {
    Set::new(|a: AddrView| a is Footprint && paths.contains(a->Footprint_0))
}

/// The paths among a set of addresses, when one more address joins the set.
pub proof fn lemma_footprints_insert(s: Set<AddrView>, a: AddrView)
    ensures
        footprints(s.insert(a)) == match a {
            AddrView::Footprint(p) => footprints(s).insert(p),
            AddrView::Constant(_) => footprints(s),
        },
{
    match a {
        AddrView::Footprint(p) => {
            assert(footprints(s.insert(a)) =~= footprints(s).insert(p));
        },
        AddrView::Constant(_) => {
            assert(footprints(s.insert(a)) =~= footprints(s));
        },
    }
}

/// The extended paths of a set of addresses, when one more address joins the
/// set.
pub proof fn lemma_extend_footprints_insert(s: Set<AddrView>, a: AddrView, offset: OffsetView)
    ensures
        extend_footprints(s.insert(a), offset) == match a {
            AddrView::Footprint(p) => extend_footprints(s, offset).insert(p.push(offset)),
            AddrView::Constant(_) => extend_footprints(s, offset),
        },
{
    let more = s.insert(a);
    let target = match a {
        AddrView::Footprint(p) => extend_footprints(s, offset).insert(p.push(offset)),
        AddrView::Constant(_) => extend_footprints(s, offset),
    };
    assert forall|q: PathView| extend_footprints(more, offset).contains(q) implies target.contains(
        q,
    ) by {
        let p = choose|p: PathView| #[trigger]
            more.contains(AddrView::Footprint(p)) && q == p.push(offset);
        if AddrView::Footprint(p) != a {
            assert(s.contains(AddrView::Footprint(p)));
        }
    }
    assert forall|q: PathView| target.contains(q) implies extend_footprints(more, offset).contains(
        q,
    ) by {
        if extend_footprints(s, offset).contains(q) {
            let p = choose|p: PathView| #[trigger]
                s.contains(AddrView::Footprint(p)) && q == p.push(offset);
            assert(more.contains(AddrView::Footprint(p)));
        } else {
            assert(a is Footprint);
            assert(more.contains(AddrView::Footprint(a->Footprint_0)));
        }
    }
    assert(extend_footprints(more, offset) =~= target);
}

/// The resource paths of a set of addresses, when one more address joins the
/// set.
pub proof fn lemma_global_paths_insert(s: Set<AddrView>, a: AddrView, key: StructKeyView)
    ensures
        global_paths(s.insert(a), key) == global_paths(s, key).insert(global_path(a, key)),
{
    let more = s.insert(a);
    let target = global_paths(s, key).insert(global_path(a, key));
    assert forall|q: PathView| global_paths(more, key).contains(q) implies target.contains(q) by {
        let b = choose|b: AddrView| #[trigger] more.contains(b) && q == global_path(b, key);
        if b != a {
            assert(s.contains(b));
        }
    }
    assert forall|q: PathView| target.contains(q) implies global_paths(more, key).contains(q) by {
        if global_paths(s, key).contains(q) {
            let b = choose|b: AddrView| #[trigger] s.contains(b) && q == global_path(b, key);
            assert(more.contains(b));
        } else {
            assert(more.contains(a));
        }
    }
    assert(global_paths(more, key) =~= target);
}

/// The addresses that stand for a set of paths, when one more path joins the
/// set.
pub proof fn lemma_addrs_of_paths_insert(paths: Set<PathView>, p: PathView)
    ensures
        addrs_of_paths(paths.insert(p)) == addrs_of_paths(paths).insert(AddrView::Footprint(p)),
{
    assert(addrs_of_paths(paths.insert(p)) =~= addrs_of_paths(paths).insert(
        AddrView::Footprint(p),
    ));
}

/// The paths among the addresses that stand for a set of paths are that set.
pub proof fn lemma_footprints_of_paths(paths: Set<PathView>)
    ensures
        footprints(addrs_of_paths(paths)) == paths,
{
    assert(footprints(addrs_of_paths(paths)) =~= paths);
}

/// The set of values that a reference or an address may currently hold. The
/// empty set stands for a value that is unknown or not tracked.
#[derive(Debug)]
pub struct AbsAddr {
    pub addrs: Vec<Addr>,
}

impl View for AbsAddr {
    type V = Set<AddrView>;

    open spec fn view(&self) -> Set<AddrView> {
        addr_set(self.addrs@)
    }
}

/// The set of addresses that a list of addresses holds.
pub open spec fn addr_set(addrs: Seq<Addr>) -> Set<AddrView> {
    Set::new(|a: AddrView| exists|i: int| 0 <= i < addrs.len() && #[trigger] addrs[i]@ == a)
}

/// A list of addresses with one more address holds one more address.
pub proof fn lemma_addr_set_push(addrs: Seq<Addr>, a: Addr)
    ensures
        addr_set(addrs.push(a)) == addr_set(addrs).insert(a@),
{
    let longer = addrs.push(a);
    assert forall|b: AddrView| addr_set(addrs).insert(a@).contains(b) implies addr_set(
        longer,
    ).contains(b) by {
        if b == a@ {
            assert(longer[addrs.len() as int]@ == b);
        } else {
            let i = choose|i: int| 0 <= i < addrs.len() && #[trigger] addrs[i]@ == b;
            assert(longer[i]@ == b);
        }
    }
    assert forall|b: AddrView| addr_set(longer).contains(b) implies addr_set(addrs).insert(
        a@,
    ).contains(b) by {
        let i = choose|i: int| 0 <= i < longer.len() && #[trigger] longer[i]@ == b;
        if i < addrs.len() {
            assert(addrs[i]@ == b);
        }
    }
    assert(addr_set(longer) =~= addr_set(addrs).insert(a@));
}

/// The addresses of a list, taken one by one from the front.
pub proof fn lemma_addr_set_take(addrs: Seq<Addr>, i: int)
    requires
        0 <= i <= addrs.len(),
    ensures
        i == 0 ==> addr_set(addrs.take(i)) == Set::<AddrView>::empty(),
        i < addrs.len() ==> addr_set(addrs.take(i + 1)) == addr_set(addrs.take(i)).insert(
            addrs[i]@,
        ),
        i == addrs.len() ==> addr_set(addrs.take(i)) == addr_set(addrs),
{
    if i == 0 {
        assert(addr_set(addrs.take(i)) =~= Set::<AddrView>::empty());
    }
    if i < addrs.len() {
        assert(addrs.take(i + 1) =~= addrs.take(i).push(addrs[i]));
        lemma_addr_set_push(addrs.take(i), addrs[i]);
    }
    if i == addrs.len() {
        assert(addrs.take(i) =~= addrs);
    }
}

impl Clone for AbsAddr {
    fn clone(&self) -> (r: Self)
        ensures
            r@ == self@,
    {
        let mut out: Vec<Addr> = Vec::new();
        let mut i: usize = 0;
        proof {
            lemma_addr_set_take(self.addrs@, 0);
            assert(addr_set(out@) =~= Set::<AddrView>::empty());
        }
        while i < self.addrs.len()
            invariant
                i <= self.addrs.len(),
                addr_set(out@) == addr_set(self.addrs@.take(i as int)),
            decreases self.addrs.len() - i,
        {
            let a = self.addrs[i].clone();
            proof {
                lemma_addr_set_push(out@, a);
                lemma_addr_set_take(self.addrs@, i as int);
            }
            out.push(a);
            i += 1;
        }
        proof {
            lemma_addr_set_take(self.addrs@, i as int);
        }
        AbsAddr { addrs: out }
    }
}

impl AbsAddr {
    /// The empty set.
    pub fn new() -> (r: AbsAddr)
        ensures
            r@ == Set::<AddrView>::empty(),
    {
        let r = AbsAddr { addrs: Vec::new() };
        assert(r@ =~= Set::<AddrView>::empty());
        r
    }

    /// The set that holds `addr` alone.
    pub fn singleton(addr: Addr) -> (r: AbsAddr)
        ensures
            r@ == set![addr@],
    {
        let mut r = AbsAddr::new();
        r.insert(addr);
        assert(r@ =~= set![addr@]);
        r
    }

    /// What the formal `index` holds when the procedure is called.
    pub fn formal(index: usize) -> (r: AbsAddr)
        ensures
            r@ == set![AddrView::Footprint(PathView::formal(index))],
    {
        AbsAddr::singleton(Addr::Footprint(AccessPath::new_formal(index)))
    }

    /// What the path `ap` holds.
    pub fn footprint(ap: AccessPath) -> (r: AbsAddr)
        ensures
            r@ == set![AddrView::Footprint(ap@)],
    {
        AbsAddr::singleton(Addr::Footprint(ap))
    }

    /// The statically known address `c`.
    pub fn constant(c: u128) -> (r: AbsAddr)
        ensures
            r@ == set![AddrView::Constant(c)],
    {
        AbsAddr::singleton(Addr::Constant(c))
    }

    /// Whether the set is empty.
    pub fn is_empty(&self) -> (r: bool)
        ensures
            r == (self@ == Set::<AddrView>::empty()),
    {
        if self.addrs.len() == 0 {
            assert(self@ =~= Set::<AddrView>::empty());
            true
        } else {
            assert(self@.contains(self.addrs@[0]@));
            false
        }
    }

    /// Whether the set holds `addr`.
    pub fn contains(&self, addr: &Addr) -> (r: bool)
        ensures
            r == self@.contains(addr@),
    {
        let mut i: usize = 0;
        while i < self.addrs.len()
            invariant
                i <= self.addrs.len(),
                forall|j: int| 0 <= j < i ==> self.addrs@[j]@ != addr@,
            decreases self.addrs.len() - i,
        {
            if self.addrs[i].same(addr) {
                return true;
            }
            i += 1;
        }
        false
    }

    /// Adds `addr` to the set, and says whether it was new.
    pub fn insert(&mut self, addr: Addr) -> (added: bool)
        ensures
            final(self)@ == old(self)@.insert(addr@),
            added == !old(self)@.contains(addr@),
    {
        if self.contains(&addr) {
            assert(self@ =~= old(self)@.insert(addr@));
            false
        } else {
            proof {
                lemma_addr_set_push(self.addrs@, addr);
            }
            self.addrs.push(addr);
            true
        }
    }

    /// The paths among the addresses of the set.
    pub fn footprint_paths(&self) -> (r: Vec<AccessPath>)
        ensures
            path_set(r@) == footprints(self@),
    {
        let mut out: Vec<AccessPath> = Vec::new();
        let mut i: usize = 0;
        proof {
            lemma_addr_set_take(self.addrs@, 0);
            assert(path_set(out@) =~= footprints(Set::<AddrView>::empty()));
        }
        while i < self.addrs.len()
            invariant
                i <= self.addrs.len(),
                path_set(out@) == footprints(addr_set(self.addrs@.take(i as int))),
            decreases self.addrs.len() - i,
        {
            let ghost seen = addr_set(self.addrs@.take(i as int));
            proof {
                lemma_addr_set_take(self.addrs@, i as int);
            }
            match &self.addrs[i] {
                Addr::Footprint(p) => {
                    let q = p.clone();
                    proof {
                        lemma_path_set_push(out@, q);
                        lemma_footprints_insert(seen, AddrView::Footprint(p@));
                    }
                    out.push(q);
                },
                Addr::Constant(c) => {
                    proof {
                        lemma_footprints_insert(seen, AddrView::Constant(*c));
                    }
                },
            }
            i += 1;
        }
        proof {
            lemma_addr_set_take(self.addrs@, i as int);
        }
        out
    }

    /// The addresses that stand for each path of the set extended by `offset`.
    /// Statically known addresses have no offsets and are left out.
    pub fn add_offset(&self, offset: &Offset) -> (r: AbsAddr)
        ensures
            r@ == addrs_of_paths(extend_footprints(self@, offset@)),
    {
        let mut out = AbsAddr::new();
        let mut i: usize = 0;
        proof {
            lemma_addr_set_take(self.addrs@, 0);
            assert(out@ =~= addrs_of_paths(
                extend_footprints(Set::<AddrView>::empty(), offset@),
            ));
        }
        while i < self.addrs.len()
            invariant
                i <= self.addrs.len(),
                out@ == addrs_of_paths(
                    extend_footprints(addr_set(self.addrs@.take(i as int)), offset@),
                ),
            decreases self.addrs.len() - i,
        {
            let ghost seen = addr_set(self.addrs@.take(i as int));
            proof {
                lemma_addr_set_take(self.addrs@, i as int);
            }
            match &self.addrs[i] {
                Addr::Footprint(p) => {
                    let mut q = p.clone();
                    q.add_offset(offset.clone());
                    proof {
                        lemma_extend_footprints_insert(seen, AddrView::Footprint(p@), offset@);
                        lemma_addrs_of_paths_insert(extend_footprints(seen, offset@), q@);
                    }
                    out.insert(Addr::Footprint(q));
                },
                Addr::Constant(c) => {
                    proof {
                        lemma_extend_footprints_insert(seen, AddrView::Constant(*c), offset@);
                    }
                },
            }
            i += 1;
        }
        proof {
            lemma_addr_set_take(self.addrs@, i as int);
        }
        out
    }

    /// The paths of the resource `key` published under the addresses of the
    /// set.
    pub fn global_paths(&self, key: &StructKey) -> (r: Vec<AccessPath>)
        ensures
            path_set(r@) == global_paths(self@, key@),
    {
        let mut out: Vec<AccessPath> = Vec::new();
        let mut i: usize = 0;
        proof {
            lemma_addr_set_take(self.addrs@, 0);
            assert(path_set(out@) =~= global_paths(Set::<AddrView>::empty(), key@));
        }
        while i < self.addrs.len()
            invariant
                i <= self.addrs.len(),
                path_set(out@) == global_paths(addr_set(self.addrs@.take(i as int)), key@),
            decreases self.addrs.len() - i,
        {
            let ghost seen = addr_set(self.addrs@.take(i as int));
            proof {
                lemma_addr_set_take(self.addrs@, i as int);
            }
            let q = match &self.addrs[i] {
                Addr::Footprint(p) => {
                    let mut q = p.clone();
                    q.add_offset(Offset::Global(key.clone()));
                    q
                },
                Addr::Constant(c) => AccessPath::new_global_constant(*c, key.clone()),
            };
            proof {
                let a = self.addrs@[i as int]@;
                assert(q@ == global_path(a, key@));
                lemma_path_set_push(out@, q);
                lemma_global_paths_insert(seen, a, key@);
            }
            out.push(q);
            i += 1;
        }
        proof {
            lemma_addr_set_take(self.addrs@, i as int);
        }
        out
    }
}

impl AbstractDomain for AbsAddr {
    open spec fn joined(a: Set<AddrView>, b: Set<AddrView>) -> Set<AddrView> {
        a.union(b)
    }

    /// Adds every address of `other` to the set.
    fn join(&mut self, other: &AbsAddr) -> (r: JoinResult) {
        let mut r = JoinResult::Unchanged;
        let mut i: usize = 0;
        proof {
            lemma_addr_set_take(other.addrs@, 0);
            assert(self@ =~= old(self)@.union(Set::<AddrView>::empty()));
        }
        while i < other.addrs.len()
            invariant
                i <= other.addrs.len(),
                self@ == old(self)@.union(addr_set(other.addrs@.take(i as int))),
                (r == JoinResult::Unchanged) <==> self@ == old(self)@,
            decreases other.addrs.len() - i,
        {
            let ghost before = self@;
            let ghost seen = addr_set(other.addrs@.take(i as int));
            proof {
                lemma_addr_set_take(other.addrs@, i as int);
            }
            let added = self.insert(other.addrs[i].clone());
            proof {
                let a = other.addrs@[i as int]@;
                assert(self@ =~= old(self)@.union(seen.insert(a)));
                if added {
                    assert(self@.contains(a) && !old(self)@.contains(a));
                } else {
                    assert(self@ =~= before);
                }
            }
            if added {
                r = JoinResult::Changed;
            }
            i += 1;
        }
        proof {
            lemma_addr_set_take(other.addrs@, i as int);
        }
        r
    }

    fn duplicate(&self) -> (r: AbsAddr) {
        self.clone()
    }
}

} // verus!
