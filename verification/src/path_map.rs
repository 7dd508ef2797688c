//! A map from access paths to abstract values.
//!
//! The map is kept as a list of entries in which no path occurs twice. Its
//! mathematical value is a `Map` from paths to the values of its entries.

use crate::access_path::{AccessPath, PathView, Root, RootView};
use crate::domain::{AbstractDomain, JoinResult};
use vstd::prelude::*;

verus! {

/// Whether one of the pairs `s` has the key `k`.
pub open spec fn has_key<W>(s: Seq<(PathView, W)>, k: PathView) -> bool {
    exists|i: int| 0 <= i < s.len() && #[trigger] s[i].0 == k
}

/// The position of a pair of `s` that has the key `k`.
pub open spec fn index_of_key<W>(s: Seq<(PathView, W)>, k: PathView) -> int {
    choose|i: int| 0 <= i < s.len() && #[trigger] s[i].0 == k
}

/// Whether no key occurs twice among the pairs `s`.
pub open spec fn distinct_keys<W>(s: Seq<(PathView, W)>) -> bool {
    forall|i: int, j: int| 0 <= i < j < s.len() ==> #[trigger] s[i].0 != #[trigger] s[j].0
}

/// The map that sends each key of `s` to the value paired with it.
pub open spec fn assoc_map<W>(s: Seq<(PathView, W)>) -> Map<PathView, W> {
    Map::new(|k: PathView| has_key(s, k), |k: PathView| s[index_of_key(s, k)].1)
}

/// `m` with `v` joined into what `p` holds, or with `p` bound to `v` where `p`
/// held nothing.
pub open spec fn weak_update<V: AbstractDomain>(
    m: Map<PathView, V::V>,
    p: PathView,
    v: V::V,
) -> Map<PathView, V::V> {
    m.insert(
        p,
        if m.contains_key(p) {
            V::joined(m[p], v)
        } else {
            v
        },
    )
}

/// The join of two maps: each path holds the join of what it holds in `a`
/// and in `b`, or what it holds in the one that binds it.
pub open spec fn map_join<V: AbstractDomain>(
    a: Map<PathView, V::V>,
    b: Map<PathView, V::V>,
) -> Map<PathView, V::V> {
    Map::new(
        |k: PathView| a.contains_key(k) || b.contains_key(k),
        |k: PathView|
            if a.contains_key(k) && b.contains_key(k) {
                V::joined(a[k], b[k])
            } else if a.contains_key(k) {
                a[k]
            } else {
                b[k]
            },
    )
}

/// `m` without the paths that start at `root`.
pub open spec fn without_root<W>(m: Map<PathView, W>, root: RootView) -> Map<PathView, W> {
    Map::new(|p: PathView| m.contains_key(p) && p.root != root, |p: PathView| m[p])
}

/// Whether `m` binds a path that starts at `root` and has at least one offset.
pub open spec fn root_has_children<W>(m: Map<PathView, W>, root: RootView) -> bool {
    exists|p: PathView| #[trigger] m.contains_key(p) && p.root == root && p.offsets.len() > 0
}

/// Whether a path is visible to the callers of a procedure whose bindings are
/// `m`: it does not start at a slot of the frame, and if it starts at a
/// formal, `m` binds something below that formal.
pub open spec fn caller_visible<W>(m: Map<PathView, W>, p: PathView) -> bool {
    &&& !(p.root is Local)
    &&& p.root is Formal ==> root_has_children(m, p.root)
}

/// `m` restricted to the paths that are visible to callers.
pub open spec fn compacted<W>(m: Map<PathView, W>) -> Map<PathView, W> {
    Map::new(|p: PathView| m.contains_key(p) && caller_visible(m, p), |p: PathView| m[p])
}

/// With distinct keys, the map sends each key to the value at its position.
pub proof fn lemma_assoc_at<W>(s: Seq<(PathView, W)>, i: int)
    requires
        distinct_keys(s),
        0 <= i < s.len(),
    ensures
        assoc_map(s).contains_key(s[i].0),
        assoc_map(s)[s[i].0] == s[i].1,
{
    assert(has_key(s, s[i].0));
    let j = index_of_key(s, s[i].0);
    assert(s[j].0 == s[i].0);
    if j < i {
        assert(s[j].0 != s[i].0);
    }
    if i < j {
        assert(s[i].0 != s[j].0);
    }
}

/// A pair with a new key, put at the end, binds that key.
pub proof fn lemma_assoc_push<W>(s: Seq<(PathView, W)>, k: PathView, v: W)
    requires
        distinct_keys(s),
        !has_key(s, k),
    ensures
        distinct_keys(s.push((k, v))),
        assoc_map(s.push((k, v))) == assoc_map(s).insert(k, v),
{
    let t = s.push((k, v));
    assert forall|i: int, j: int| 0 <= i < j < t.len() implies #[trigger] t[i].0
        != #[trigger] t[j].0 by {
        if j < s.len() {
            assert(s[i].0 != s[j].0);
        } else {
            assert(s[i].0 != k);
        }
    }
    assert forall|q: PathView| assoc_map(t).contains_key(q) <==> assoc_map(s).insert(
        k,
        v,
    ).contains_key(q) by {
        if assoc_map(t).contains_key(q) {
            let i = index_of_key(t, q);
            if i < s.len() {
                assert(s[i].0 == q);
            }
        }
        if assoc_map(s).insert(k, v).contains_key(q) {
            if q == k {
                assert(t[s.len() as int].0 == q);
            } else {
                let i = index_of_key(s, q);
                assert(t[i].0 == q);
            }
        }
    }
    assert forall|q: PathView| assoc_map(t).contains_key(q) implies assoc_map(t)[q] == assoc_map(
        s,
    ).insert(k, v)[q] by {
        if q == k {
            lemma_assoc_at(t, s.len() as int);
        } else {
            let i = index_of_key(s, q);
            assert(t[i].0 == q);
            lemma_assoc_at(t, i);
            lemma_assoc_at(s, i);
        }
    }
    assert(assoc_map(t) =~= assoc_map(s).insert(k, v));
}

/// A new value at a position rebinds the key at that position.
pub proof fn lemma_assoc_update<W>(s: Seq<(PathView, W)>, i: int, v: W)
    requires
        distinct_keys(s),
        0 <= i < s.len(),
    ensures
        distinct_keys(s.update(i, (s[i].0, v))),
        assoc_map(s.update(i, (s[i].0, v))) == assoc_map(s).insert(s[i].0, v),
{
    let k = s[i].0;
    let t = s.update(i, (k, v));
    assert forall|a: int, b: int| 0 <= a < b < t.len() implies #[trigger] t[a].0
        != #[trigger] t[b].0 by {
        assert(s[a].0 != s[b].0);
    }
    assert forall|q: PathView| assoc_map(t).contains_key(q) <==> assoc_map(s).insert(
        k,
        v,
    ).contains_key(q) by {
        if assoc_map(t).contains_key(q) {
            let j = index_of_key(t, q);
            assert(s[j].0 == q);
        }
        if assoc_map(s).insert(k, v).contains_key(q) {
            if q == k {
                assert(t[i].0 == q);
            } else {
                let j = index_of_key(s, q);
                assert(t[j].0 == q);
            }
        }
    }
    assert forall|q: PathView| assoc_map(t).contains_key(q) implies assoc_map(t)[q] == assoc_map(
        s,
    ).insert(k, v)[q] by {
        if q == k {
            lemma_assoc_at(t, i);
        } else {
            let j = index_of_key(t, q);
            assert(s[j].0 == q);
            lemma_assoc_at(t, j);
            lemma_assoc_at(s, j);
        }
    }
    assert(assoc_map(t) =~= assoc_map(s).insert(k, v));
}

/// Taking a pair out unbinds its key.
pub proof fn lemma_assoc_remove<W>(s: Seq<(PathView, W)>, i: int)
    requires
        distinct_keys(s),
        0 <= i < s.len(),
    ensures
        distinct_keys(s.remove(i)),
        assoc_map(s.remove(i)) == assoc_map(s).remove(s[i].0),
{
    let k = s[i].0;
    let t = s.remove(i);
    assert forall|a: int, b: int| 0 <= a < b < t.len() implies #[trigger] t[a].0
        != #[trigger] t[b].0 by {
        let a2 = if a < i { a } else { a + 1 };
        let b2 = if b < i { b } else { b + 1 };
        assert(t[a] == s[a2]);
        assert(t[b] == s[b2]);
        assert(s[a2].0 != s[b2].0);
    }
    assert forall|q: PathView| assoc_map(t).contains_key(q) <==> assoc_map(s).remove(
        k,
    ).contains_key(q) by {
        if assoc_map(t).contains_key(q) {
            let j = index_of_key(t, q);
            let j2 = if j < i { j } else { j + 1 };
            assert(t[j] == s[j2]);
            assert(s[j2].0 == q);
            if j2 < i {
                assert(s[j2].0 != s[i].0);
            } else {
                assert(s[i].0 != s[j2].0);
            }
        }
        if assoc_map(s).remove(k).contains_key(q) {
            let j = index_of_key(s, q);
            let j2 = if j < i { j } else { j - 1 };
            assert(t[j2] == s[j]);
            assert(t[j2].0 == q);
        }
    }
    assert forall|q: PathView| assoc_map(t).contains_key(q) implies assoc_map(t)[q] == assoc_map(
        s,
    ).remove(k)[q] by {
        let j = index_of_key(t, q);
        let j2 = if j < i { j } else { j + 1 };
        assert(t[j] == s[j2]);
        lemma_assoc_at(t, j);
        lemma_assoc_at(s, j2);
    }
    assert(assoc_map(t) =~= assoc_map(s).remove(k));
}

/// The pairs of a list with distinct keys, taken one by one from the front.
pub proof fn lemma_assoc_take<W>(s: Seq<(PathView, W)>, i: int)
    requires
        distinct_keys(s),
        0 <= i <= s.len(),
    ensures
        distinct_keys(s.take(i)),
        i == 0 ==> assoc_map(s.take(i)) == Map::<PathView, W>::empty(),
        i < s.len() ==> !assoc_map(s.take(i)).contains_key(s[i].0),
        i < s.len() ==> assoc_map(s.take(i + 1)) == assoc_map(s.take(i)).insert(s[i].0, s[i].1),
        i == s.len() ==> assoc_map(s.take(i)) == assoc_map(s),
{
    let t = s.take(i);
    assert forall|a: int, b: int| 0 <= a < b < t.len() implies #[trigger] t[a].0
        != #[trigger] t[b].0 by {
        assert(s[a].0 != s[b].0);
    }
    if i == 0 {
        assert(assoc_map(t) =~= Map::<PathView, W>::empty());
    }
    if i < s.len() {
        if has_key(t, s[i].0) {
            let j = index_of_key(t, s[i].0);
            assert(s[j].0 != s[i].0);
        }
        assert(s.take(i + 1) =~= t.push((s[i].0, s[i].1)));
        lemma_assoc_push(t, s[i].0, s[i].1);
    }
    if i == s.len() {
        assert(t =~= s);
    }
}

/// Unbinding a path that is no child of `root` leaves the children of `root`.
pub proof fn lemma_children_after_remove<W>(m: Map<PathView, W>, k: PathView, root: RootView)
    requires
        !(k.root == root && k.offsets.len() > 0),
    ensures
        root_has_children(m.remove(k), root) == root_has_children(m, root),
{
    if root_has_children(m, root) {
        let p = choose|p: PathView| #[trigger]
            m.contains_key(p) && p.root == root && p.offsets.len() > 0;
        assert(m.remove(k).contains_key(p));
    }
    if root_has_children(m.remove(k), root) {
        let p = choose|p: PathView| #[trigger]
            m.remove(k).contains_key(p) && p.root == root && p.offsets.len() > 0;
        assert(m.contains_key(p));
    }
}

/// A path and the value bound to it.
#[derive(Debug)]
pub struct Entry<V> {
    pub path: AccessPath,
    pub value: V,
}

/// A map from access paths to abstract values.
#[derive(Debug)]
pub struct AccessPathMap<V> {
    pub entries: Vec<Entry<V>>,
}

impl<V: AbstractDomain> View for AccessPathMap<V> {
    type V = Map<PathView, V::V>;

    open spec fn view(&self) -> Map<PathView, V::V> {
        assoc_map(self.pairs())
    }
}

impl<V: AbstractDomain> AccessPathMap<V> {
    /// The paths and the values of the entries, in the order of the entries.
    pub open spec fn pairs(&self) -> Seq<(PathView, V::V)> {
        Seq::new(self.entries@.len(), |i: int| (self.entries@[i].path@, self.entries@[i].value@))
    }

    /// No path occurs twice among the entries.
    pub open spec fn wf(&self) -> bool {
        distinct_keys(self.pairs())
    }

    /// The empty map.
    pub fn new() -> (r: Self)
        ensures
            r.wf(),
            r@ == Map::<PathView, V::V>::empty(),
    {
        let r = AccessPathMap { entries: Vec::new() };
        assert(r@ =~= Map::<PathView, V::V>::empty());
        r
    }

    /// The number of entries.
    pub fn len(&self) -> (r: usize)
        ensures
            r == self.pairs().len(),
    {
        self.entries.len()
    }

    /// The path of the entry at position `i`.
    pub fn path_at(&self, i: usize) -> (r: &AccessPath)
        requires
            i < self.pairs().len(),
        ensures
            r@ == self.pairs()[i as int].0,
    {
        &self.entries[i].path
    }

    /// The value of the entry at position `i`.
    pub fn value_at(&self, i: usize) -> (r: &V)
        requires
            i < self.pairs().len(),
        ensures
            r@ == self.pairs()[i as int].1,
    {
        &self.entries[i].value
    }

    /// Whether no path occurs twice among the entries.
    pub fn is_well_formed(&self) -> (r: bool)
        ensures
            r == self.wf(),
    {
        let mut i: usize = 0;
        while i < self.entries.len()
            invariant
                i <= self.entries.len(),
                forall|a: int, b: int|
                    0 <= a < b < i ==> (#[trigger] self.pairs()[a]).0 != (#[trigger] self.pairs()[
                        b
                    ]).0,
            decreases self.entries.len() - i,
        {
            let mut j: usize = 0;
            while j < i
                invariant
                    j <= i,
                    i < self.entries.len(),
                    forall|a: int|
                        0 <= a < j ==> (#[trigger] self.pairs()[a]).0 != self.pairs()[i as int].0,
                decreases i - j,
            {
                if self.entries[j].path.same(&self.entries[i].path) {
                    assert(self.pairs()[j as int].0 == self.pairs()[i as int].0);
                    return false;
                }
                j += 1;
            }
            i += 1;
        }
        true
    }

    /// The position of the entry with the path `path`.
    pub fn find(&self, path: &AccessPath) -> (r: Option<usize>)
        ensures
            match r {
                Some(i) => i < self.pairs().len() && self.pairs()[i as int].0 == path@,
                None => !has_key(self.pairs(), path@),
            },
    {
        let mut i: usize = 0;
        while i < self.entries.len()
            invariant
                i <= self.entries.len(),
                forall|j: int| 0 <= j < i ==> (#[trigger] self.pairs()[j]).0 != path@,
            decreases self.entries.len() - i,
        {
            if self.entries[i].path.same(path) {
                return Some(i);
            }
            i += 1;
        }
        None
    }

    /// The value bound to `path`.
    pub fn get(&self, path: &AccessPath) -> (r: Option<&V>)
        requires
            self.wf(),
        ensures
            match r {
                Some(v) => self@.contains_key(path@) && v@ == self@[path@],
                None => !self@.contains_key(path@),
            },
    {
        match self.find(path) {
            Some(i) => {
                proof {
                    lemma_assoc_at(self.pairs(), i as int);
                }
                Some(&self.entries[i].value)
            },
            None => None,
        }
    }

    /// Whether `path` is bound.
    pub fn contains(&self, path: &AccessPath) -> (r: bool)
        ensures
            r == self@.contains_key(path@),
    {
        self.find(path).is_some()
    }

    /// Binds `path` to `value`, whatever it was bound to.
    pub fn insert(&mut self, path: AccessPath, value: V)
        requires
            old(self).wf(),
        ensures
            final(self).wf(),
            final(self)@ == old(self)@.insert(path@, value@),
    {
        match self.find(&path) {
            Some(i) => {
                proof {
                    lemma_assoc_update(self.pairs(), i as int, value@);
                }
                self.entries[i].value = value;
                assert(self.pairs() =~= old(self).pairs().update(i as int, (path@, value@)));
            },
            None => {
                proof {
                    lemma_assoc_push(self.pairs(), path@, value@);
                }
                self.entries.push(Entry { path, value });
                assert(self.pairs() =~= old(self).pairs().push((path@, value@)));
            },
        }
    }

    /// Unbinds `path`.
    pub fn remove(&mut self, path: &AccessPath)
        requires
            old(self).wf(),
        ensures
            final(self).wf(),
            final(self)@ == old(self)@.remove(path@),
    {
        match self.find(path) {
            Some(i) => {
                proof {
                    lemma_assoc_remove(self.pairs(), i as int);
                }
                self.entries.remove(i);
                assert(self.pairs() =~= old(self).pairs().remove(i as int));
            },
            None => {
                assert(self@ =~= old(self)@.remove(path@));
            },
        }
    }

    /// Joins `value` into what `path` holds, or binds `path` to a copy of
    /// `value` where it held nothing. Says whether the map changed.
    pub fn update_weak(&mut self, path: AccessPath, value: &V) -> (r: JoinResult)
        requires
            old(self).wf(),
        ensures
            final(self).wf(),
            final(self)@ == weak_update::<V>(old(self)@, path@, value@),
            (r == JoinResult::Unchanged) <==> final(self)@ == old(self)@,
    {
        match self.find(&path) {
            Some(i) => {
                proof {
                    lemma_assoc_at(self.pairs(), i as int);
                }
                let r = self.entries[i].value.join(value);
                proof {
                    let joined = self.entries@[i as int].value@;
                    assert(self.pairs() =~= old(self).pairs().update(i as int, (path@, joined)));
                    lemma_assoc_update(old(self).pairs(), i as int, joined);
                    if r == JoinResult::Unchanged {
                        assert(self@ =~= old(self)@);
                    } else {
                        assert(self@[path@] != old(self)@[path@]);
                    }
                }
                r
            },
            None => {
                let copy = value.duplicate();
                proof {
                    lemma_assoc_push(self.pairs(), path@, copy@);
                }
                self.entries.push(Entry { path, value: copy });
                assert(self.pairs() =~= old(self).pairs().push((path@, value@)));
                assert(self@.contains_key(path@));
                JoinResult::Changed
            },
        }
    }

    /// Joins every binding of `other` into the map, and says whether the map
    /// changed.
    pub fn join(&mut self, other: &Self) -> (r: JoinResult)
        requires
            old(self).wf(),
            other.wf(),
        ensures
            final(self).wf(),
            final(self)@ == map_join::<V>(old(self)@, other@),
            (r == JoinResult::Unchanged) <==> final(self)@ == old(self)@,
    {
        let mut r = JoinResult::Unchanged;
        let mut i: usize = 0;
        proof {
            lemma_assoc_take(other.pairs(), 0);
            assert(self@ =~= map_join::<V>(old(self)@, Map::<PathView, V::V>::empty()));
        }
        while i < other.entries.len()
            invariant
                i <= other.entries.len(),
                self.wf(),
                other.wf(),
                self@ == map_join::<V>(old(self)@, assoc_map(other.pairs().take(i as int))),
                (r == JoinResult::Unchanged) <==> self@ == old(self)@,
            decreases other.entries.len() - i,
        {
            let ghost before = self@;
            let ghost seen = assoc_map(other.pairs().take(i as int));
            let ghost key = other.pairs()[i as int].0;
            let ghost value = other.pairs()[i as int].1;
            proof {
                lemma_assoc_take(other.pairs(), i as int);
            }
            let step = self.update_weak(other.entries[i].path.clone(), &other.entries[i].value);
            proof {
                assert(self@ =~= map_join::<V>(old(self)@, seen.insert(key, value)));
                if self@ == old(self)@ {
                    assert(before =~= old(self)@);
                }
            }
            r = r.combine(step);
            i += 1;
        }
        proof {
            lemma_assoc_take(other.pairs(), i as int);
        }
        r
    }

    /// Unbinds every path that starts at `root`.
    pub fn remove_root(&mut self, root: &Root)
        requires
            old(self).wf(),
        ensures
            final(self).wf(),
            final(self)@ == without_root(old(self)@, root@),
    {
        let mut i: usize = 0;
        while i < self.entries.len()
            invariant
                i <= self.entries.len(),
                self.wf(),
                forall|j: int| 0 <= j < i ==> (#[trigger] self.pairs()[j]).0.root != root@,
                forall|k: PathView| #[trigger]
                    self@.contains_key(k) ==> old(self)@.contains_key(k) && self@[k] == old(
                        self,
                    )@[k],
                forall|k: PathView| #[trigger]
                    old(self)@.contains_key(k) && k.root != root@ ==> self@.contains_key(k),
            decreases self.entries.len() - i,
        {
            if self.entries[i].path.root.same(root) {
                let ghost before = self.pairs();
                let ghost map_before = self@;
                proof {
                    lemma_assoc_at(before, i as int);
                    lemma_assoc_remove(before, i as int);
                }
                self.entries.remove(i);
                assert(self.pairs() =~= before.remove(i as int));
                assert(self@ == map_before.remove(before[i as int].0));
            } else {
                i += 1;
            }
        }
        assert(self@ =~= without_root(old(self)@, root@)) by {
            assert forall|k: PathView| self@.contains_key(k) implies k.root != root@ by {
                let j = index_of_key(self.pairs(), k);
                assert(self.pairs()[j].0.root != root@);
            }
        }
    }

    /// Whether the map binds a path that starts at `root` and has at least
    /// one offset.
    pub fn has_children(&self, root: &Root) -> (r: bool)
        ensures
            r == root_has_children(self@, root@),
    {
        let mut i: usize = 0;
        while i < self.entries.len()
            invariant
                i <= self.entries.len(),
                forall|j: int|
                    0 <= j < i ==> !((#[trigger] self.pairs()[j]).0.root == root@
                        && self.pairs()[j].0.offsets.len() > 0),
            decreases self.entries.len() - i,
        {
            if self.entries[i].path.offsets.len() > 0 && self.entries[i].path.root.same(root) {
                assert(self.pairs()[i as int].0 == self.entries@[i as int].path@);
                assert(has_key(self.pairs(), self.pairs()[i as int].0));
                assert(self@.contains_key(self.pairs()[i as int].0));
                return true;
            }
            i += 1;
        }
        assert(!root_has_children(self@, root@)) by {
            if root_has_children(self@, root@) {
                let p = choose|p: PathView| #[trigger]
                    self@.contains_key(p) && p.root == root@ && p.offsets.len() > 0;
                let j = index_of_key(self.pairs(), p);
                assert(self.pairs()[j].0 == p);
            }
        }
        false
    }

    /// Keeps the bindings that are visible to callers: unbinds every path
    /// that starts at a slot of the frame, and every formal below which
    /// nothing is bound.
    pub fn compact(&mut self)
        requires
            old(self).wf(),
        ensures
            final(self).wf(),
            final(self)@ == compacted(old(self)@),
    {
        let mut i: usize = 0;
        while i < self.entries.len()
            invariant
                i <= self.entries.len(),
                self.wf(),
                forall|j: int|
                    0 <= j < i ==> caller_visible(old(self)@, (#[trigger] self.pairs()[j]).0),
                forall|k: PathView| #[trigger]
                    self@.contains_key(k) ==> old(self)@.contains_key(k) && self@[k] == old(
                        self,
                    )@[k],
                forall|k: PathView| #[trigger]
                    old(self)@.contains_key(k) && caller_visible(old(self)@, k)
                        ==> self@.contains_key(k),
                forall|root: RootView|
                    root is Formal ==> (#[trigger] root_has_children(self@, root))
                        == root_has_children(old(self)@, root),
            decreases self.entries.len() - i,
        {
            let ghost before = self.pairs();
            let ghost map_before = self@;
            let ghost key = before[i as int].0;
            proof {
                lemma_assoc_at(before, i as int);
            }
            let drop = match &self.entries[i].path.root {
                Root::Local(_) => true,
                Root::Formal(_) => self.entries[i].path.offsets.len() == 0 && !self.has_children(
                    &self.entries[i].path.root,
                ),
                _ => false,
            };
            if drop {
                proof {
                    lemma_assoc_remove(before, i as int);
                    assert forall|root: RootView| root is Formal implies (#[trigger] root_has_children(
                        map_before.remove(key),
                        root,
                    )) == root_has_children(old(self)@, root) by {
                        lemma_children_after_remove(map_before, key, root);
                    }
                    assert(!caller_visible(old(self)@, key));
                }
                self.entries.remove(i);
                assert(self.pairs() =~= before.remove(i as int));
            } else {
                proof {
                    if key.root is Formal && key.offsets.len() > 0 {
                        assert(map_before.contains_key(key));
                        assert(root_has_children(map_before, key.root));
                    }
                    assert(caller_visible(old(self)@, key));
                }
                i += 1;
            }
        }
        assert(self@ =~= compacted(old(self)@)) by {
            assert forall|k: PathView| self@.contains_key(k) implies caller_visible(
                old(self)@,
                k,
            ) by {
                let j = index_of_key(self.pairs(), k);
                assert(self.pairs()[j].0 == k);
            }
        }
    }
}

impl<V: AbstractDomain> Clone for AccessPathMap<V> {
    fn clone(&self) -> (r: Self)
        ensures
            r.pairs() == self.pairs(),
    {
        let mut entries: Vec<Entry<V>> = Vec::new();
        let mut i: usize = 0;
        while i < self.entries.len()
            invariant
                i <= self.entries.len(),
                entries.len() == i,
                forall|j: int|
                    0 <= j < i ==> entries@[j].path@ == self.entries@[j].path@ && entries@[j].value@
                        == self.entries@[j].value@,
            decreases self.entries.len() - i,
        {
            entries.push(
                Entry {
                    path: self.entries[i].path.clone(),
                    value: self.entries[i].value.duplicate(),
                },
            );
            i += 1;
        }
        let r = AccessPathMap { entries };
        assert(r.pairs() =~= self.pairs());
        r
    }
}

} // verus!
