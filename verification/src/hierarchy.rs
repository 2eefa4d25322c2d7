//! The scene graph: which entity is the parent of which, and the ordered
//! child list of every parent. Entities are named by the 64 bits of their
//! ECS identifier.

use std::collections::{HashMap, HashSet};
use vstd::prelude::*;

verus! {

broadcast use vstd::std_specs::hash::group_hash_axioms;

/// The mathematical content of a hierarchy.
pub struct HierarchyView {
    /// The parent of each entity that has one.
    pub parents: Map<u64, u64>,
    /// The ordered child list of each entity that has one (possibly empty).
    pub children: Map<u64, Seq<u64>>,
}

/// `list` without any occurrence of `x`.
pub open spec fn without(list: Seq<u64>, x: u64) -> Seq<u64> {
    list.filter(|y: u64| y != x)
}

impl HierarchyView {
    /// The children of `e`; empty when it has no child list.
    pub open spec fn kids(self, e: u64) -> Seq<u64> {
        if self.children.contains_key(e) {
            self.children[e]
        } else {
            Seq::empty()
        }
    }

    /// The parent links and the child lists describe the same relation, and
    /// no child list names an entity twice.
    pub open spec fn wf(self) -> bool {
        &&& forall|c: u64| #[trigger]
            self.parents.contains_key(c) ==> self.children.contains_key(self.parents[c])
                && self.children[self.parents[c]].contains(c)
        &&& forall|p: u64, i: int|
            #![trigger self.children[p][i]]
            self.children.contains_key(p) && 0 <= i < self.children[p].len()
                ==> self.parents.contains_key(self.children[p][i]) && self.parents[self.children[p][i]]
                == p
        &&& forall|p: u64| #[trigger]
            self.children.contains_key(p) ==> self.children[p].no_duplicates()
    }

    /// The children of `e` when `e` is to be expanded, else none.
    pub open spec fn kids_in(self, e: u64, expand: Set<u64>) -> Seq<u64> {
        if expand.contains(e) {
            self.kids(e)
        } else {
            Seq::empty()
        }
    }

    /// Following parent links from `x`, `a` is reached within `n` steps.
    pub open spec fn ancestor_within(self, x: u64, a: u64, n: nat) -> bool
        decreases n,
    {
        n > 0 && self.parents.contains_key(x) && (self.parents[x] == a || self.ancestor_within(
            self.parents[x],
            a,
            (n - 1) as nat,
        ))
    }

    /// `a` is a proper ancestor of `x`.
    pub open spec fn is_ancestor(self, a: u64, x: u64) -> bool {
        exists|n: nat| self.ancestor_within(x, a, n)
    }

    /// The breadth-first walk from `root` after it has visited `k` entries:
    /// it starts with `root` alone and each step appends the children of the
    /// next entry not yet visited, if that entry is in `expand`.
    pub open spec fn walk(self, root: u64, expand: Set<u64>, k: nat) -> Seq<u64>
        decreases k,
    {
        if k == 0 {
            seq![root]
        } else {
            let prev = self.walk(root, expand, (k - 1) as nat);
            if k - 1 < prev.len() {
                prev + self.kids_in(prev[k - 1], expand)
            } else {
                prev
            }
        }
    }

    /// The walk from `root` once it has visited all it listed.
    pub open spec fn search(self, root: u64, expand: Set<u64>) -> Seq<u64> {
        let k = choose|k: nat| self.walk(root, expand, k).len() == k;
        self.walk(root, expand, k)
    }

    /// The entities of the subtree under `root`, `root` first, in
    /// breadth-first order.
    pub open spec fn subtree(self, root: u64) -> Seq<u64> {
        self.search(root, Set::full())
    }

    /// The order in which a subtree is saved: the breadth-first walk from
    /// `root` that lists, and descends into, only entities of `identified`.
    pub open spec fn saved_order(self, root: u64, identified: Set<u64>) -> Seq<u64> {
        self.search(root, identified).filter(|x: u64| identified.contains(x))
    }

    /// What removing the subtree under `root` makes of the hierarchy: `root`
    /// leaves its parent's child list, and every entity of the subtree loses
    /// its parent link and its child list.
    pub open spec fn remove_subtree(self, root: u64) -> HierarchyView {
        let gone = self.subtree(root).to_set();
        let detached = if self.parents.contains_key(root) && self.children.contains_key(
            self.parents[root],
        ) {
            self.children.insert(
                self.parents[root],
                without(self.children[self.parents[root]], root),
            )
        } else {
            self.children
        };
        HierarchyView {
            parents: self.parents.remove_keys(gone),
            children: detached.remove_keys(gone),
        }
    }

    /// What `set_parent` makes of the hierarchy: nothing changes when the
    /// entity would become its own parent or already has that parent;
    /// otherwise it leaves its old parent's child list and, with a new
    /// parent, is appended to that parent's list (which is created if
    /// missing).
    pub open spec fn set_parent(self, child: u64, parent: Option<u64>) -> HierarchyView {
        let current = if self.parents.contains_key(child) {
            Some(self.parents[child])
        } else {
            None
        };
        if parent == Some(child) || current == parent {
            self
        } else {
            let detached = match current {
                Some(old) => if self.children.contains_key(old) {
                    self.children.insert(old, without(self.children[old], child))
                } else {
                    self.children
                },
                None => self.children,
            };
            match parent {
                Some(p) => HierarchyView {
                    parents: self.parents.insert(child, p),
                    children: if detached.contains_key(p) {
                        if detached[p].contains(child) {
                            detached
                        } else {
                            detached.insert(p, detached[p].push(child))
                        }
                    } else {
                        detached.insert(p, seq![child])
                    },
                },
                None => HierarchyView { parents: self.parents.remove(child), children: detached },
            }
        }
    }
}

/// Filtering a list extended by one element.
pub proof fn lemma_without_push(list: Seq<u64>, e: u64, x: u64)
    ensures
        without(list.push(e), x) == (if e != x {
            without(list, x).push(e)
        } else {
            without(list, x)
        }),
{
    reveal(Seq::filter);
    assert(list.push(e).drop_last() =~= list);
}

/// Removing the one occurrence of an element from a list without
/// duplicates takes out just that entry.
pub proof fn lemma_without_at(list: Seq<u64>, k: int)
    requires
        list.no_duplicates(),
        0 <= k < list.len(),
    ensures
        without(list, list[k]) == list.remove(k),
    decreases list.len(),
{
    reveal(Seq::filter);
    let x = list[k];
    let init = list.drop_last();
    assert(list =~= init.push(list.last()));
    lemma_without_push(init, list.last(), x);
    if k == list.len() - 1 {
        assert(!init.contains(x)) by {
            if init.contains(x) {
                let j = choose|j: int| 0 <= j < init.len() && init[j] == x;
                assert(list[j] == list[k]);
            }
        }
        lemma_without_absent(init, x);
        assert(list.remove(k) =~= init);
    } else {
        assert(init[k] == x);
        assert(list.last() != x) by {
            assert(list[list.len() - 1] == list.last());
        }
        lemma_without_at(init, k);
        assert(list.remove(k) =~= init.remove(k).push(list.last()));
    }
}

/// Removing an element a list does not hold leaves the list as it is.
pub proof fn lemma_without_absent(list: Seq<u64>, x: u64)
    requires
        !list.contains(x),
    ensures
        without(list, x) == list,
    decreases list.len(),
{
    reveal(Seq::filter);
    if list.len() == 0 {
        assert(without(list, x) =~= list);
    } else {
        let init = list.drop_last();
        assert(list =~= init.push(list.last()));
        assert(!init.contains(x)) by {
            if init.contains(x) {
                let k = choose|k: int| 0 <= k < init.len() && init[k] == x;
                assert(list[k] == x);
            }
        }
        lemma_without_absent(init, x);
        lemma_without_push(init, list.last(), x);
        assert(list.last() != x) by {
            assert(list[list.len() - 1] == list.last());
        }
    }
}

/// Removing an element from a list without duplicates keeps it without
/// duplicates and removes exactly that element.
pub proof fn lemma_without(list: Seq<u64>, x: u64)
    ensures
        forall|y: u64| #[trigger] without(list, x).contains(y) <==> (list.contains(y) && y != x),
        list.no_duplicates() ==> without(list, x).no_duplicates(),
        without(list, x).len() <= list.len(),
    decreases list.len(),
{
    reveal(Seq::filter);
    if list.len() == 0 {
        assert(without(list, x) =~= Seq::<u64>::empty());
    } else {
        let init = list.drop_last();
        let last = list.last();
        lemma_without(init, x);
        assert(list =~= init.push(last));
        lemma_without_push(init, last, x);
        if list.no_duplicates() {
            assert(init.no_duplicates());
            assert(!init.contains(last));
            if last != x {
                let w = without(init, x);
                assert(!w.contains(last));
                assert forall|i: int, j: int|
                    0 <= i < w.push(last).len() && 0 <= j < w.push(last).len() && i != j implies w.push(
                    last,
                )[i] != w.push(last)[j] by {
                    if i < w.len() && j < w.len() {
                    } else if i == w.len() {
                        assert(w[j] != last);
                    } else {
                        assert(w[i] != last);
                    }
                }
            }
        }
        assert forall|y: u64| #[trigger] without(list, x).contains(y) <==> (list.contains(y) && y
            != x) by {
            if list.contains(y) && y != x {
                let i = choose|i: int| 0 <= i < list.len() && list[i] == y;
                if i < list.len() - 1 {
                    assert(init[i] == y);
                    assert(init.contains(y));
                } else {
                    assert(without(list, x) == without(init, x).push(last));
                    assert(without(list, x)[without(init, x).len() as int] == y);
                }
            }
            if without(list, x).contains(y) {
                let i = choose|i: int|
                    0 <= i < without(list, x).len() && without(list, x)[i] == y;
                if last != x && i == without(init, x).len() {
                    assert(y == last);
                    assert(list[list.len() - 1] == y);
                } else {
                    assert(without(init, x).contains(y));
                    let j = choose|j: int| 0 <= j < init.len() && init[j] == y;
                    assert(list[j] == y);
                }
            }
        }
    }
}

/// `set_parent` keeps the parent links and the child lists consistent.
pub proof fn lemma_set_parent_wf(v: HierarchyView, child: u64, parent: Option<u64>)
    requires
        v.wf(),
    ensures
        v.set_parent(child, parent).wf(),
{
    let r = v.set_parent(child, parent);
    let current = if v.parents.contains_key(child) {
        Some(v.parents[child])
    } else {
        None
    };
    if parent == Some(child) || current == parent {
        return;
    }
    if let Some(old) = current {
        lemma_without(v.children[old], child);
    }
    let detached = match current {
        Some(old) => if v.children.contains_key(old) {
            v.children.insert(old, without(v.children[old], child))
        } else {
            v.children
        },
        None => v.children,
    };
    // No list of `detached` names `child`, and every other entry is untouched.
    assert forall|q: u64, i: int|
        detached.contains_key(q) && 0 <= i < detached[q].len() implies #[trigger] detached[q][i]
        != child && v.parents.contains_key(detached[q][i]) && v.parents[detached[q][i]] == q by {
        if current is Some && q == current->0 {
            let l = v.children[q];
            assert(without(l, child).contains(detached[q][i]));
            let j = choose|j: int| 0 <= j < l.len() && l[j] == detached[q][i];
            assert(v.parents[l[j]] == q);
        } else {
            assert(v.children[q][i] == detached[q][i]);
            if detached[q][i] == child {
                assert(v.parents[child] == q);
            }
        }
    }
    assert forall|q: u64| #[trigger] detached.contains_key(q) implies detached[q].no_duplicates() by {
    }
    assert forall|c: u64| #[trigger]
        v.parents.contains_key(c) && c != child implies detached.contains_key(v.parents[c])
        && detached[v.parents[c]].contains(c) by {
        let q = v.parents[c];
        if current is Some && q == current->0 {
            assert(without(v.children[q], child).contains(c));
        }
    }
    match parent {
        Some(p) => {
            if detached.contains_key(p) {
                assert(!detached[p].contains(child));
                let l = detached[p].push(child);
                assert(l.no_duplicates());
                assert forall|c: u64| #[trigger]
                    r.parents.contains_key(c) implies r.children.contains_key(r.parents[c])
                    && r.children[r.parents[c]].contains(c) by {
                    if c == child {
                        assert(l[l.len() - 1] == child);
                    } else {
                        let q = v.parents[c];
                        if q == p {
                            let j = choose|j: int| 0 <= j < detached[p].len() && detached[p][j] == c;
                            assert(l[j] == c);
                        }
                    }
                }
                assert forall|q: u64, i: int|
                    r.children.contains_key(q) && 0 <= i < r.children[q].len() implies #[trigger]
                    r.parents.contains_key(r.children[q][i]) && r.parents[r.children[q][i]] == q by {
                    if q == p && i == l.len() - 1 {
                    } else {
                        assert(detached[q][i] == r.children[q][i]);
                    }
                }
            } else {
                assert forall|c: u64| #[trigger]
                    r.parents.contains_key(c) implies r.children.contains_key(r.parents[c])
                    && r.children[r.parents[c]].contains(c) by {
                    if c == child {
                        assert(seq![child][0] == child);
                    }
                }
                assert forall|q: u64, i: int|
                    r.children.contains_key(q) && 0 <= i < r.children[q].len() implies #[trigger]
                    r.parents.contains_key(r.children[q][i]) && r.parents[r.children[q][i]] == q by {
                    if q == p {
                    } else {
                        assert(detached[q][i] == r.children[q][i]);
                    }
                }
            }
        },
        None => {
            assert forall|q: u64, i: int|
                r.children.contains_key(q) && 0 <= i < r.children[q].len() implies #[trigger]
                r.parents.contains_key(r.children[q][i]) && r.parents[r.children[q][i]] == q by {
                assert(detached[q][i] == r.children[q][i]);
            }
        },
    }
}

/// The entity spawned for each identifier among the first `n` spawned
/// entities (a later entity with the same identifier wins).
pub open spec fn spawned_by_uuid(uuids: Seq<u128>, entities: Seq<u64>, n: nat) -> Map<u128, u64>
    decreases n,
{
    if n == 0 {
        Map::empty()
    } else {
        spawned_by_uuid(uuids, entities, (n - 1) as nat).insert(uuids[n - 1], entities[n - 1])
    }
}

/// The hierarchy after linking the first `n` spawned entities to their
/// parents: entity `i` gets as parent the entity spawned for
/// `parent_uuids[i]`, when that identifier was spawned too.
pub open spec fn linked(
    v: HierarchyView,
    by_uuid: Map<u128, u64>,
    uuids: Seq<u128>,
    parent_uuids: Seq<Option<u128>>,
    n: nat,
) -> HierarchyView
    decreases n,
{
    if n == 0 {
        v
    } else {
        let w = linked(v, by_uuid, uuids, parent_uuids, (n - 1) as nat);
        let j = n - 1;
        match parent_uuids[j] {
            Some(pu) => if by_uuid.contains_key(uuids[j]) && by_uuid.contains_key(pu) {
                w.set_parent(by_uuid[uuids[j]], Some(by_uuid[pu]))
            } else {
                w
            },
            None => w,
        }
    }
}

/// The child list that relinking gives the entity spawned for saved parent
/// `p`: the entities spawned for the saved children of `p`, in the order in
/// which they were saved (among the first `n` saved entities).
pub open spec fn relinked_kids(
    v: HierarchyView,
    saved: Seq<u64>,
    ents: Seq<u64>,
    p: u64,
    n: nat,
) -> Seq<u64>
    decreases n,
{
    if n == 0 {
        Seq::empty()
    } else {
        let prev = relinked_kids(v, saved, ents, p, (n - 1) as nat);
        if v.parents.contains_key(saved[n - 1]) && v.parents[saved[n - 1]] == p {
            prev.push(ents[n - 1])
        } else {
            prev
        }
    }
}

/// With distinct identifiers, each one maps to the entity spawned for it.
proof fn lemma_spawned_by_uuid(uuids: Seq<u128>, ents: Seq<u64>, n: nat)
    requires
        n <= uuids.len(),
        n <= ents.len(),
        uuids.no_duplicates(),
    ensures
        forall|u: u128|
            #[trigger] spawned_by_uuid(uuids, ents, n).contains_key(u) <==> exists|i: int|
                0 <= i < n && uuids[i] == u,
        forall|i: int|
            0 <= i < n ==> #[trigger] spawned_by_uuid(uuids, ents, n)[uuids[i]] == ents[i],
    decreases n,
{
    if n > 0 {
        lemma_spawned_by_uuid(uuids, ents, (n - 1) as nat);
        let prev = spawned_by_uuid(uuids, ents, (n - 1) as nat);
        let m = spawned_by_uuid(uuids, ents, n);
        assert(m == prev.insert(uuids[n - 1], ents[n - 1]));
        assert forall|u: u128| #[trigger] m.contains_key(u) <==> exists|i: int|
            0 <= i < n && uuids[i] == u by {
            if u == uuids[n - 1] {
                assert(0 <= n - 1 < n && uuids[n - 1] == u);
            } else {
                if prev.contains_key(u) {
                    let i = choose|i: int| 0 <= i < n - 1 && uuids[i] == u;
                    assert(0 <= i < n && uuids[i] == u);
                }
                if exists|i: int| 0 <= i < n && uuids[i] == u {
                    let i = choose|i: int| 0 <= i < n && uuids[i] == u;
                    assert(0 <= i < n - 1 && uuids[i] == u);
                    assert(prev.contains_key(u));
                }
            }
        }
        assert forall|i: int| 0 <= i < n implies #[trigger] m[uuids[i]] == ents[i] by {
            if i < n - 1 {
                assert(uuids[i] != uuids[n - 1]);
                assert(prev[uuids[i]] == ents[i]);
            }
        }
    }
}

/// Entity `ents[i]` has parent `ents[j]` in `r` exactly when entity
/// `saved[i]` has parent `saved[j]` in `v`.
pub open spec fn same_link(
    r: HierarchyView,
    v: HierarchyView,
    saved: Seq<u64>,
    ents: Seq<u64>,
    i: int,
    j: int,
) -> bool {
    (r.parents.contains_key(ents[i]) && r.parents[ents[i]] == ents[j]) <==> (v.parents.contains_key(
        saved[i],
    ) && v.parents[saved[i]] == saved[j])
}

/// Entity `ents[i]` has parent `ents[j]` in `r` exactly when saved entity
/// `saved[i]`, one of the first `k`, has parent `saved[j]` in `v`.
spec fn links_match(
    r: HierarchyView,
    v: HierarchyView,
    saved: Seq<u64>,
    ents: Seq<u64>,
    i: int,
    j: int,
    k: nat,
) -> bool {
    (r.parents.contains_key(ents[i]) && r.parents[ents[i]] == ents[j]) <==> (i < k
        && v.parents.contains_key(saved[i]) && v.parents[saved[i]] == saved[j])
}

/// What linking the first `k` of `n` freshly spawned entities gives, for the
/// law below.
#[verifier::spinoff_prover]
#[verifier::rlimit(40)]
proof fn lemma_relink_step(
    v: HierarchyView,
    saved: Seq<u64>,
    w: HierarchyView,
    uuids: Seq<u128>,
    ents: Seq<u64>,
    parent_uuids: Seq<Option<u128>>,
    k: nat,
)
    requires
        w.wf(),
        saved.len() == uuids.len(),
        ents.len() == uuids.len(),
        parent_uuids.len() == uuids.len(),
        k <= uuids.len(),
        uuids.no_duplicates(),
        ents.no_duplicates(),
        forall|i: int|
            0 <= i < ents.len() ==> !w.parents.contains_key(#[trigger] ents[i])
                && !w.children.contains_key(ents[i]),
        forall|i: int, j: int|
            0 <= i < uuids.len() && 0 <= j < uuids.len() ==> ((parent_uuids[i] == Some(
                #[trigger] uuids[j],
            )) <==> (v.parents.contains_key(#[trigger] saved[i]) && v.parents[saved[i]]
                == saved[j])),
        forall|i: int|
            0 <= i < saved.len() ==> !(v.parents.contains_key(#[trigger] saved[i])
                && v.parents[saved[i]] == saved[i]),
    ensures
        ({
            let n = uuids.len();
            let r = linked(w, spawned_by_uuid(uuids, ents, n), uuids, parent_uuids, k);
            &&& r.wf()
            &&& forall|x: u64|
                !ents.contains(x) ==> (#[trigger] r.parents.contains_key(x)
                    == w.parents.contains_key(x)) && r.parents[x] == w.parents[x]
                    && r.children.contains_key(x) == w.children.contains_key(x)
                    && r.children[x] == w.children[x]
            &&& forall|i: int, j: int|
                0 <= i < n && 0 <= j < n ==> #[trigger] links_match(r, v, saved, ents, i, j, k)
            &&& forall|i: int|
                0 <= i < n && #[trigger] r.parents.contains_key(ents[i]) ==> ents.contains(
                    r.parents[ents[i]],
                )
            &&& forall|j: int|
                0 <= j < n ==> #[trigger] r.kids(ents[j]) == relinked_kids(
                    v,
                    saved,
                    ents,
                    saved[j],
                    k,
                )
        }),
    decreases k,
{
    let n = uuids.len();
    let m = spawned_by_uuid(uuids, ents, n);
    lemma_spawned_by_uuid(uuids, ents, n);
    if k == 0 {
        assert forall|i: int, j: int|
            0 <= i < n && 0 <= j < n implies #[trigger] links_match(w, v, saved, ents, i, j, 0) by {
            assert(!w.parents.contains_key(ents[i]));
        }
        assert forall|j: int| 0 <= j < n implies #[trigger] w.kids(ents[j]) == relinked_kids(
            v,
            saved,
            ents,
            saved[j],
            0,
        ) by {}
        return;
    }
    lemma_relink_step(v, saved, w, uuids, ents, parent_uuids, (k - 1) as nat);
    let prev = linked(w, m, uuids, parent_uuids, (k - 1) as nat);
    let r = linked(w, m, uuids, parent_uuids, k);
    let c = (k - 1) as int;
    // The entity being linked has no parent yet.
    assert(!prev.parents.contains_key(ents[c])) by {
        if prev.parents.contains_key(ents[c]) {
            let q = prev.parents[ents[c]];
            assert(ents.contains(q));
            let j = choose|j: int| 0 <= j < n && ents[j] == q;
            assert(links_match(prev, v, saved, ents, c, j, (k - 1) as nat));
        }
    }
    let has_parent = exists|j: int|
        0 <= j < n && v.parents.contains_key(saved[c]) && v.parents[saved[c]] == saved[j];
    if has_parent {
        let j = choose|j: int|
            0 <= j < n && v.parents.contains_key(saved[c]) && v.parents[saved[c]] == saved[j];
        assert(parent_uuids[c] == Some(uuids[j]));
        assert(m.contains_key(uuids[c])) by {
            assert(0 <= c < n && uuids[c] == uuids[c]);
        }
        assert(m.contains_key(uuids[j])) by {
            assert(0 <= j < n && uuids[j] == uuids[j]);
        }
        assert(m[uuids[c]] == ents[c] && m[uuids[j]] == ents[j]);
        assert(j != c);
        let child = ents[c];
        let p = ents[j];
        assert(child != p);
        assert(r == prev.set_parent(child, Some(p)));
        lemma_set_parent_wf(prev, child, Some(p));
        assert(!prev.kids(p).contains(child)) by {
            if prev.kids(p).contains(child) {
                let t = choose|t: int| 0 <= t < prev.kids(p).len() && prev.kids(p)[t] == child;
                assert(prev.children[p][t] == child);
            }
        }
        let new_kids = prev.kids(p).push(child);
        assert(r.parents == prev.parents.insert(child, p));
        assert(r.children == prev.children.insert(p, new_kids)) by {
            if prev.children.contains_key(p) {
                assert(prev.kids(p) == prev.children[p]);
            } else {
                assert(prev.kids(p).push(child) =~= seq![child]);
            }
        }
        assert forall|x: u64| !ents.contains(x) implies (#[trigger] r.parents.contains_key(x)
            == w.parents.contains_key(x)) && r.parents[x] == w.parents[x]
            && r.children.contains_key(x) == w.children.contains_key(x) && r.children[x]
            == w.children[x] by {
            assert(ents[c] == child);
            assert(ents[j] == p);
            assert(x != child);
            assert(x != p);
            assert(prev.parents.contains_key(x) == w.parents.contains_key(x));
            assert(prev.children.contains_key(x) == w.children.contains_key(x));
        }
        assert forall|i: int, jj: int|
            0 <= i < n && 0 <= jj < n implies #[trigger] links_match(r, v, saved, ents, i, jj, k) by {
            if i == c {
                assert(r.parents.contains_key(ents[i]) && r.parents[ents[i]] == p);
                if v.parents.contains_key(saved[i]) && v.parents[saved[i]] == saved[jj] {
                    assert(parent_uuids[c] == Some(uuids[jj]));
                    assert(uuids[jj] == uuids[j]);
                    assert(jj == j);
                }
                if ents[jj] == p {
                    assert(jj == j);
                }
            } else {
                assert(ents[i] != child);
                assert(links_match(prev, v, saved, ents, i, jj, (k - 1) as nat));
            }
        }
        assert forall|i: int|
            0 <= i < n && #[trigger] r.parents.contains_key(ents[i]) implies ents.contains(
            r.parents[ents[i]],
        ) by {
            if i == c {
                assert(ents[j] == r.parents[ents[i]]);
            } else {
                assert(ents[i] != child);
                assert(prev.parents.contains_key(ents[i]));
            }
        }
        assert forall|jj: int| 0 <= jj < n implies #[trigger] r.kids(ents[jj]) == relinked_kids(
            v,
            saved,
            ents,
            saved[jj],
            k,
        ) by {
            assert(prev.kids(ents[jj]) == relinked_kids(v, saved, ents, saved[jj], (k - 1) as nat));
            if jj == j {
                assert(v.parents[saved[c]] == saved[jj]);
            } else {
                assert(ents[jj] != p);
                if v.parents.contains_key(saved[c]) && v.parents[saved[c]] == saved[jj] {
                    assert(parent_uuids[c] == Some(uuids[jj]));
                    assert(uuids[jj] == uuids[j]);
                }
            }
        }
    } else {
        assert(r == prev) by {
            if let Some(pu) = parent_uuids[c] {
                if m.contains_key(uuids[c]) && m.contains_key(pu) {
                    let j = choose|j: int| 0 <= j < n && uuids[j] == pu;
                    assert(parent_uuids[c] == Some(uuids[j]));
                    assert(v.parents.contains_key(saved[c]) && v.parents[saved[c]] == saved[j]);
                }
            }
        }
        assert forall|i: int, jj: int|
            0 <= i < n && 0 <= jj < n implies #[trigger] links_match(r, v, saved, ents, i, jj, k) by {
            assert(links_match(prev, v, saved, ents, i, jj, (k - 1) as nat));
            if i == c && v.parents.contains_key(saved[i]) && v.parents[saved[i]] == saved[jj] {
                assert(has_parent);
            }
        }
        assert forall|jj: int| 0 <= jj < n implies #[trigger] r.kids(ents[jj]) == relinked_kids(
            v,
            saved,
            ents,
            saved[jj],
            k,
        ) by {
            assert(prev.kids(ents[jj]) == relinked_kids(v, saved, ents, saved[jj], (k - 1) as nat));
            if v.parents.contains_key(saved[c]) && v.parents[saved[c]] == saved[jj] {
                assert(has_parent);
            }
        }
    }
}

/// Relinking saved entities by identifier restores the hierarchy among
/// them: when the saved entities `saved` (of hierarchy `v`) are spawned
/// again as fresh entities `ents` (the one at each position standing for
/// the saved one there) with distinct identifiers `uuids`, each recording
/// the identifier of its parent when that parent was saved too, then after
/// linking, the new entities have exactly the parent links of the saved
/// ones, each new parent lists its new children in the order they were
/// saved, and the rest of the target hierarchy `w` is unchanged. It fails
/// for a saved entity that is its own parent, which `set_parent` leaves
/// alone.
pub proof fn law_relink_restores_links(
    v: HierarchyView,
    saved: Seq<u64>,
    w: HierarchyView,
    uuids: Seq<u128>,
    ents: Seq<u64>,
    parent_uuids: Seq<Option<u128>>,
)
    requires
        w.wf(),
        saved.len() == uuids.len(),
        ents.len() == uuids.len(),
        parent_uuids.len() == uuids.len(),
        uuids.no_duplicates(),
        ents.no_duplicates(),
        forall|i: int|
            0 <= i < ents.len() ==> !w.parents.contains_key(#[trigger] ents[i])
                && !w.children.contains_key(ents[i]),
        forall|i: int, j: int|
            0 <= i < uuids.len() && 0 <= j < uuids.len() ==> ((parent_uuids[i] == Some(
                #[trigger] uuids[j],
            )) <==> (v.parents.contains_key(#[trigger] saved[i]) && v.parents[saved[i]]
                == saved[j])),
        forall|i: int|
            0 <= i < saved.len() ==> !(v.parents.contains_key(#[trigger] saved[i])
                && v.parents[saved[i]] == saved[i]),
    ensures
        ({
            let n = uuids.len();
            let r = linked(w, spawned_by_uuid(uuids, ents, n), uuids, parent_uuids, n);
            &&& r.wf()
            &&& forall|i: int, j: int|
                0 <= i < n && 0 <= j < n ==> #[trigger] same_link(r, v, saved, ents, i, j)
            &&& forall|i: int|
                0 <= i < n && #[trigger] r.parents.contains_key(ents[i]) ==> ents.contains(
                    r.parents[ents[i]],
                )
            &&& forall|j: int|
                0 <= j < n ==> #[trigger] r.kids(ents[j]) == relinked_kids(
                    v,
                    saved,
                    ents,
                    saved[j],
                    n,
                )
            &&& forall|x: u64|
                !ents.contains(x) ==> (#[trigger] r.parents.contains_key(x)
                    == w.parents.contains_key(x)) && r.parents[x] == w.parents[x]
                    && r.children.contains_key(x) == w.children.contains_key(x)
                    && r.children[x] == w.children[x]
        }),
{
    let n = uuids.len();
    lemma_relink_step(v, saved, w, uuids, ents, parent_uuids, n);
    let r = linked(w, spawned_by_uuid(uuids, ents, n), uuids, parent_uuids, n);
    assert forall|i: int, j: int| 0 <= i < n && 0 <= j < n implies #[trigger] same_link(
        r,
        v,
        saved,
        ents,
        i,
        j,
    ) by {
        assert(links_match(r, v, saved, ents, i, j, n));
    }
}

/// Every entry of a walk after the first was listed as a child of an
/// earlier entry that the walk descends into.
proof fn lemma_walk_parents(v: HierarchyView, root: u64, ex: Set<u64>, k: nat)
    requires
        v.wf(),
    ensures
        v.walk(root, ex, k).len() > 0,
        v.walk(root, ex, k)[0] == root,
        forall|j: int|
            1 <= j < v.walk(root, ex, k).len() ==> v.parents.contains_key(
                #[trigger] v.walk(root, ex, k)[j],
            ) && ex.contains(v.parents[v.walk(root, ex, k)[j]]) && v.walk(root, ex, k).contains(
                v.parents[v.walk(root, ex, k)[j]],
            ),
    decreases k,
{
    if k > 0 {
        lemma_walk_parents(v, root, ex, (k - 1) as nat);
        let prev = v.walk(root, ex, (k - 1) as nat);
        let w = v.walk(root, ex, k);
        if k - 1 < prev.len() {
            let p = prev[k - 1];
            let kids = v.kids_in(p, ex);
            assert(w == prev + kids);
            assert forall|j: int| 1 <= j < w.len() implies v.parents.contains_key(#[trigger] w[j])
                && ex.contains(v.parents[w[j]]) && w.contains(v.parents[w[j]]) by {
                if j < prev.len() {
                    assert(w[j] == prev[j]);
                    let q = v.parents[prev[j]];
                    let m = choose|m: int| 0 <= m < prev.len() && prev[m] == q;
                    assert(w[m] == q);
                } else {
                    let t = j - prev.len();
                    assert(w[j] == kids[t]);
                    assert(ex.contains(p));
                    assert(v.children[p][t] == kids[t]);
                    assert(w[k - 1] == p);
                }
            }
        }
    }
}

/// A saved subtree keeps its parents: every saved entity other than the
/// subtree's root has its parent saved too, and the root, when saved, comes
/// first. So relinking the saved entities by identifier (see
/// `law_relink_restores_links`) gives every one of them but the root its
/// parent back.
pub proof fn law_saved_parents_saved(v: HierarchyView, root: u64, identified: Set<u64>)
    requires
        v.wf(),
    ensures
        ({
            let s = v.saved_order(root, identified);
            &&& identified.contains(root) ==> s.len() > 0 && s[0] == root
            &&& forall|x: u64|
                #[trigger] s.contains(x) && x != root ==> v.parents.contains_key(x) && s.contains(
                    v.parents[x],
                )
            &&& forall|x: u64| #[trigger] s.contains(x) ==> identified.contains(x)
        }),
{
    let k = choose|k: nat| v.walk(root, identified, k).len() == k;
    let w = v.walk(root, identified, k);
    assert(v.search(root, identified) == w);
    lemma_walk_parents(v, root, identified, k);
    let pred = |x: u64| identified.contains(x);
    let s = w.filter(pred);
    assert(s == v.saved_order(root, identified));
    assert forall|x: u64| #[trigger] s.contains(x) implies identified.contains(x) && w.contains(x) by {
        w.lemma_filter_contains_rev(pred, x);
        let i = choose|i: int| 0 <= i < s.len() && s[i] == x;
        w.lemma_filter_pred(pred, i);
    }
    assert forall|x: u64| #[trigger] s.contains(x) && x != root implies v.parents.contains_key(x)
        && s.contains(v.parents[x]) by {
        w.lemma_filter_contains_rev(pred, x);
        let j = choose|j: int| 0 <= j < w.len() && w[j] == x;
        assert(j != 0);
        let q = v.parents[w[j]];
        assert(identified.contains(q) && w.contains(q));
        let m = choose|m: int| 0 <= m < w.len() && w[m] == q;
        w.lemma_filter_contains(pred, m);
    }
    if identified.contains(root) {
        assert(w[0] == root);
        reveal(Seq::filter);
        lemma_filter_first(w, pred);
    }
}

/// When the first entry passes the filter, the filtered list starts with it.
proof fn lemma_filter_first(w: Seq<u64>, pred: spec_fn(u64) -> bool)
    requires
        w.len() > 0,
        pred(w[0]),
    ensures
        w.filter(pred).len() > 0,
        w.filter(pred)[0] == w[0],
    decreases w.len(),
{
    reveal(Seq::filter);
    if w.len() == 1 {
        assert(w.drop_last() =~= Seq::<u64>::empty());
        assert(w.drop_last().filter(pred) =~= Seq::<u64>::empty());
    } else {
        lemma_filter_first(w.drop_last(), pred);
        assert(w.drop_last()[0] == w[0]);
    }
}

/// Whether an entity's parent is `p`.
pub open spec fn child_of(v: HierarchyView, p: u64) -> spec_fn(u64) -> bool {
    |x: u64| v.parents.contains_key(x) && v.parents[x] == p
}

/// What a walk that has expanded its first `k` entries satisfies: it starts
/// with `root`, names no entity twice, and every later entry descends from
/// `root` and was listed as a child of one of the first `k` entries, which
/// the walk descends into and which comes before it.
spec fn walk_inv(v: HierarchyView, root: u64, ex: Set<u64>, w: Seq<u64>, k: nat) -> bool {
    &&& w.len() > 0
    &&& w[0] == root
    &&& w.no_duplicates()
    &&& forall|j: int|
        #![trigger w[j]]
        1 <= j < w.len() ==> v.parents.contains_key(w[j]) && v.ancestor_within(w[j], root, j as nat)
            && exists|m: int| 0 <= m < j && m < k && w[m] == v.parents[w[j]] && ex.contains(w[m])
}

/// A walk from a root that is not its own ancestor keeps `walk_inv`.
#[verifier::spinoff_prover]
#[verifier::rlimit(30)]
proof fn lemma_walk_inv(v: HierarchyView, root: u64, ex: Set<u64>, k: nat)
    requires
        v.wf(),
        !v.is_ancestor(root, root),
    ensures
        walk_inv(v, root, ex, v.walk(root, ex, k), k),
    decreases k,
{
    if k == 0 {
        return;
    }
    lemma_walk_inv(v, root, ex, (k - 1) as nat);
    let prev = v.walk(root, ex, (k - 1) as nat);
    let w = v.walk(root, ex, k);
    let c = k - 1;
    if c >= prev.len() {
        assert(w == prev);
        assert forall|j: int| #![trigger w[j]] 1 <= j < w.len() implies v.parents.contains_key(w[j])
            && v.ancestor_within(w[j], root, j as nat) && exists|m: int|
            0 <= m < j && m < k && w[m] == v.parents[w[j]] && ex.contains(w[m]) by {
            assert(prev[j] == w[j]);
            let m = choose|m: int|
                0 <= m < j && m < k - 1 && prev[m] == v.parents[prev[j]] && ex.contains(prev[m]);
            assert(w[m] == prev[m]);
        }
        return;
    }
    let curr = prev[c];
    let kids = v.kids_in(curr, ex);
    assert(w == prev + kids);
    assert forall|t: int| 0 <= t < kids.len() implies v.parents.contains_key(#[trigger] kids[t])
        && v.parents[kids[t]] == curr && ex.contains(curr) by {
        assert(v.children.contains_key(curr));
        assert(v.children[curr][t] == kids[t]);
    }
    // No child of `curr` is listed yet.
    assert forall|t: int, j: int| 0 <= t < kids.len() && 0 <= j < prev.len() implies #[trigger] kids[t]
        != #[trigger] prev[j] by {
        if kids[t] == prev[j] {
            if j == 0 {
                if c == 0 {
                    assert(v.ancestor_within(root, root, 1));
                } else {
                    assert(v.ancestor_within(curr, root, c as nat));
                    assert(v.ancestor_within(root, root, k));
                }
                assert(v.is_ancestor(root, root));
            } else {
                let m = choose|m: int|
                    0 <= m < j && m < c && prev[m] == v.parents[prev[j]] && ex.contains(prev[m]);
                assert(prev[m] == prev[c]);
            }
        }
    }
    assert(kids.no_duplicates()) by {
        if kids.len() > 0 {
            assert(v.children.contains_key(curr));
        }
    }
    let n0 = prev.len();
    assert forall|a: int, b: int| 0 <= a < w.len() && 0 <= b < w.len() && a != b implies w[a] != w[b] by {
        if a < n0 && b < n0 {
            assert(w[a] == prev[a] && w[b] == prev[b]);
        } else if a >= n0 && b >= n0 {
            assert(w[a] == kids[a - n0] && w[b] == kids[b - n0]);
        } else if a < n0 {
            assert(w[a] == prev[a] && w[b] == kids[b - n0]);
        } else {
            assert(w[b] == prev[b] && w[a] == kids[a - n0]);
        }
    }
    assert forall|j: int| #![trigger w[j]] 1 <= j < w.len() implies v.parents.contains_key(w[j])
        && v.ancestor_within(w[j], root, j as nat) && exists|m: int|
        0 <= m < j && m < k && w[m] == v.parents[w[j]] && ex.contains(w[m]) by {
        if j < n0 {
            assert(w[j] == prev[j]);
            let m = choose|m: int|
                0 <= m < j && m < k - 1 && prev[m] == v.parents[prev[j]] && ex.contains(prev[m]);
            assert(w[m] == prev[m]);
        } else {
            let t = j - n0;
            assert(w[j] == kids[t]);
            assert(w[c] == curr);
            if c == 0 {
                assert(v.ancestor_within(w[j], root, 1));
                lemma_ancestor_mono(v, w[j], root, 1, j as nat);
            } else {
                assert(v.ancestor_within(curr, root, c as nat));
                assert(v.ancestor_within(w[j], root, k));
                lemma_ancestor_mono(v, w[j], root, k, j as nat);
            }
        }
    }
}

/// A walk lists at most one more entity than have parents.
proof fn lemma_walk_len_bound(v: HierarchyView, root: u64, ex: Set<u64>, k: nat)
    requires
        v.wf(),
        v.parents.dom().finite(),
        !v.is_ancestor(root, root),
    ensures
        v.walk(root, ex, k).len() <= v.parents.dom().len() + 1,
{
    lemma_walk_inv(v, root, ex, k);
    let w = v.walk(root, ex, k);
    let tail = w.drop_first();
    assert forall|a: int, b: int|
        0 <= a < tail.len() && 0 <= b < tail.len() && a != b implies tail[a] != tail[b] by {
        assert(tail[a] == w[a + 1] && tail[b] == w[b + 1]);
    }
    tail.unique_seq_to_set();
    assert forall|x: u64| tail.to_set().contains(x) implies v.parents.dom().contains(x) by {
        let j = choose|j: int| 0 <= j < tail.len() && tail[j] == x;
        assert(w[j + 1] == x);
    }
    vstd::set_lib::lemma_len_subset(tail.to_set(), v.parents.dom());
}

/// Until it stops, the walk lists more entities than it has expanded.
proof fn lemma_walk_grows(v: HierarchyView, root: u64, ex: Set<u64>, k: nat)
    ensures
        (exists|k2: nat| k2 <= k && #[trigger] v.walk(root, ex, k2).len() == k2) || v.walk(
            root,
            ex,
            k,
        ).len() > k,
    decreases k,
{
    if k > 0 {
        lemma_walk_grows(v, root, ex, (k - 1) as nat);
        let prev = v.walk(root, ex, (k - 1) as nat);
        if prev.len() > k - 1 {
            let w = v.walk(root, ex, k);
            assert(w.len() >= prev.len());
            if w.len() == k {
                assert(v.walk(root, ex, k).len() == k);
            }
        } else {
            let k2 = choose|k2: nat| k2 <= k - 1 && #[trigger] v.walk(root, ex, k2).len() == k2;
            assert(k2 <= k);
        }
    }
}

/// The search from a root that is not its own ancestor is a walk that has
/// expanded all it listed.
proof fn lemma_search_done(v: HierarchyView, root: u64, ex: Set<u64>)
    requires
        v.wf(),
        v.parents.dom().finite(),
        !v.is_ancestor(root, root),
    ensures
        v.walk(root, ex, v.search(root, ex).len()) == v.search(root, ex),
{
    let b = v.parents.dom().len() + 1;
    lemma_walk_grows(v, root, ex, b);
    lemma_walk_len_bound(v, root, ex, b);
    let k2 = choose|k2: nat| k2 <= b && #[trigger] v.walk(root, ex, k2).len() == k2;
    lemma_walk_is_search(v, root, ex, k2);
}

/// Filtering by a predicate that nothing satisfies leaves nothing.
proof fn lemma_filter_none(s: Seq<u64>, pred: spec_fn(u64) -> bool)
    requires
        forall|i: int| 0 <= i < s.len() ==> !pred(#[trigger] s[i]),
    ensures
        s.filter(pred) == Seq::<u64>::empty(),
    decreases s.len(),
{
    reveal(Seq::filter);
    if s.len() > 0 {
        lemma_filter_none(s.drop_last(), pred);
        assert(!pred(s[s.len() - 1]));
    }
}

/// Filtering by a predicate that everything satisfies keeps everything.
proof fn lemma_filter_all(s: Seq<u64>, pred: spec_fn(u64) -> bool)
    requires
        forall|i: int| 0 <= i < s.len() ==> pred(#[trigger] s[i]),
    ensures
        s.filter(pred) == s,
    decreases s.len(),
{
    reveal(Seq::filter);
    if s.len() > 0 {
        lemma_filter_all(s.drop_last(), pred);
        assert(pred(s[s.len() - 1]));
        assert(s.drop_last().push(s.last()) =~= s);
    }
}

/// Two filters can be applied in either order.
proof fn lemma_filter_commute(s: Seq<u64>, f: spec_fn(u64) -> bool, g: spec_fn(u64) -> bool)
    ensures
        s.filter(f).filter(g) == s.filter(g).filter(f),
    decreases s.len(),
{
    if s.len() > 0 {
        let t = s.drop_last();
        let x = s.last();
        assert(s == t.push(x));
        lemma_filter_commute(t, f, g);
        t.lemma_filter_push(x, f);
        t.lemma_filter_push(x, g);
        t.filter(f).lemma_filter_push(x, g);
        t.filter(g).lemma_filter_push(x, f);
    } else {
        reveal(Seq::filter);
    }
}

/// In a walk, the entries whose parent is an entry `p` are exactly `p`'s
/// children in order, once `p` has been expanded, and none before.
#[verifier::spinoff_prover]
#[verifier::rlimit(30)]
proof fn lemma_walk_children(v: HierarchyView, root: u64, ex: Set<u64>, k: nat)
    requires
        v.wf(),
        !v.is_ancestor(root, root),
    ensures
        forall|i: int|
            0 <= i < v.walk(root, ex, k).len() ==> #[trigger] v.walk(root, ex, k).filter(
                child_of(v, v.walk(root, ex, k)[i]),
            ) == (if i < k {
                v.kids_in(v.walk(root, ex, k)[i], ex)
            } else {
                Seq::<u64>::empty()
            }),
    decreases k,
{
    lemma_walk_inv(v, root, ex, k);
    let w = v.walk(root, ex, k);
    // The root's parent is not listed.
    assert forall|i: int| 0 <= i < w.len() implies !(v.parents.contains_key(root) && v.parents[root]
        == #[trigger] w[i]) by {
        if v.parents.contains_key(root) && v.parents[root] == w[i] {
            if i == 0 {
                assert(v.ancestor_within(root, root, 1));
            } else {
                assert(v.ancestor_within(w[i], root, i as nat));
                assert(v.ancestor_within(root, root, (i + 1) as nat));
            }
            assert(v.is_ancestor(root, root));
        }
    }
    if k == 0 {
        assert(w == seq![root]);
        assert forall|i: int| 0 <= i < w.len() implies #[trigger] w.filter(child_of(v, w[i]))
            == Seq::<u64>::empty() by {
            lemma_filter_none(w, child_of(v, w[i]));
        }
        return;
    }
    lemma_walk_children(v, root, ex, (k - 1) as nat);
    lemma_walk_inv(v, root, ex, (k - 1) as nat);
    let prev = v.walk(root, ex, (k - 1) as nat);
    let c = k - 1;
    if c >= prev.len() {
        assert(w == prev);
        return;
    }
    let curr = prev[c];
    let kids = v.kids_in(curr, ex);
    assert(w == prev + kids);
    let n0 = prev.len();
    assert forall|t: int| 0 <= t < kids.len() implies v.parents.contains_key(#[trigger] kids[t])
        && v.parents[kids[t]] == curr by {
        assert(v.children.contains_key(curr));
        assert(v.children[curr][t] == kids[t]);
    }
    assert forall|i: int| 0 <= i < w.len() implies #[trigger] w.filter(child_of(v, w[i])) == (if i
        < k {
        v.kids_in(w[i], ex)
    } else {
        Seq::<u64>::empty()
    }) by {
        let p = w[i];
        let pred = child_of(v, p);
        Seq::filter_distributes_over_add(prev, kids, pred);
        if p == curr {
            assert forall|t: int| 0 <= t < kids.len() implies pred(#[trigger] kids[t]) by {}
            lemma_filter_all(kids, pred);
        } else {
            assert forall|t: int| 0 <= t < kids.len() implies !pred(#[trigger] kids[t]) by {}
            lemma_filter_none(kids, pred);
        }
        if i < n0 {
            assert(w[i] == prev[i]);
            assert(prev.filter(pred) == (if i < k - 1 {
                v.kids_in(prev[i], ex)
            } else {
                Seq::<u64>::empty()
            }));
            if p == curr {
                assert(w[c] == curr);
                assert(i == c);
            } else {
                assert(i != c) by {
                    assert(w[c] == curr);
                }
            }
        } else {
            // `p` was just listed: nothing listed before has it as parent.
            assert forall|j: int| 0 <= j < prev.len() implies !pred(#[trigger] prev[j]) by {
                assert(w[j] == prev[j]);
                if j == 0 {
                    assert(prev[0] == root);
                } else {
                    let m = choose|m: int|
                        0 <= m < j && m < c && prev[m] == v.parents[prev[j]] && ex.contains(prev[m]);
                    assert(w[m] == prev[m]);
                    assert(m != i);
                }
            }
            lemma_filter_none(prev, pred);
            assert(w[c] == curr);
            assert(p != curr);
        }
    }
}

/// A saved subtree lists each saved entity's saved children in the order of
/// its child list: for a saved entity `p`, the saved entities whose parent
/// is `p`, in saved order, are `p`'s children that carry an identifier, in
/// child-list order. Together with `law_relink_restores_links` this means
/// that relinking a saved subtree gives every new parent its children back
/// in their old order.
pub proof fn law_saved_children_in_order(
    v: HierarchyView,
    root: u64,
    identified: Set<u64>,
    p: u64,
)
    requires
        v.wf(),
        v.parents.dom().finite(),
        !v.is_ancestor(root, root),
        v.saved_order(root, identified).contains(p),
    ensures
        v.saved_order(root, identified).filter(child_of(v, p)) == v.kids(p).filter(
            |x: u64| identified.contains(x),
        ),
{
    let ids = |x: u64| identified.contains(x);
    let w = v.search(root, identified);
    let k = w.len();
    lemma_search_done(v, root, identified);
    assert(v.walk(root, identified, k) == w);
    lemma_walk_children(v, root, identified, k);
    assert(v.saved_order(root, identified) == w.filter(ids));
    w.lemma_filter_contains_rev(ids, p);
    let i = choose|i: int| 0 <= i < w.len() && w[i] == p;
    let si = choose|si: int| 0 <= si < w.filter(ids).len() && w.filter(ids)[si] == p;
    w.lemma_filter_pred(ids, si);
    assert(identified.contains(p));
    assert(w.filter(child_of(v, w[i])) == v.kids_in(p, identified));
    lemma_filter_commute(w, ids, child_of(v, p));
}

/// Filtering a list without duplicates keeps it without duplicates.
proof fn lemma_filter_no_dups(s: Seq<u64>, pred: spec_fn(u64) -> bool)
    requires
        s.no_duplicates(),
    ensures
        s.filter(pred).no_duplicates(),
    decreases s.len(),
{
    if s.len() > 0 {
        let t = s.drop_last();
        let x = s.last();
        assert(s == t.push(x));
        assert(t.no_duplicates());
        lemma_filter_no_dups(t, pred);
        t.lemma_filter_push(x, pred);
        if pred(x) {
            let f = t.filter(pred);
            assert(!f.contains(x)) by {
                if f.contains(x) {
                    t.lemma_filter_contains_rev(pred, x);
                    let j = choose|j: int| 0 <= j < t.len() && t[j] == x;
                    assert(s[j] == s[s.len() - 1]);
                }
            }
            assert forall|a: int, b: int|
                0 <= a < f.push(x).len() && 0 <= b < f.push(x).len() && a != b implies f.push(x)[a]
                != f.push(x)[b] by {
                if a < f.len() && b < f.len() {
                } else if a == f.len() {
                    assert(f[b] != x);
                } else {
                    assert(f[a] != x);
                }
            }
        }
    } else {
        reveal(Seq::filter);
    }
}

/// The child list that relinking gives, written with the saved entities:
/// the new entities standing for the saved children of `p`, in saved order.
proof fn lemma_relinked_kids_map(
    v: HierarchyView,
    saved: Seq<u64>,
    ents: Seq<u64>,
    p: u64,
    n: nat,
)
    requires
        saved.no_duplicates(),
        n <= saved.len(),
        ents.len() == saved.len(),
    ensures
        relinked_kids(v, saved, ents, p, n) == saved.take(n as int).filter(child_of(v, p)).map_values(
            |x: u64| ents[saved.index_of(x)],
        ),
    decreases n,
{
    let f = |x: u64| ents[saved.index_of(x)];
    if n == 0 {
        reveal(Seq::filter);
        assert(saved.take(0) =~= Seq::<u64>::empty());
        assert(saved.take(0).filter(child_of(v, p)) =~= Seq::<u64>::empty());
        assert(relinked_kids(v, saved, ents, p, n) =~= saved.take(0).filter(child_of(v, p)).map_values(f));
    } else {
        lemma_relinked_kids_map(v, saved, ents, p, (n - 1) as nat);
        let t = saved.take(n - 1);
        let x = saved[n - 1];
        assert(saved.take(n as int) =~= t.push(x));
        t.lemma_filter_push(x, child_of(v, p));
        assert(saved.index_of(x) == n - 1) by {
            let i = saved.index_of(x);
            assert(0 <= n - 1 < saved.len() && saved[n - 1] == x);
            assert(0 <= i < saved.len() && saved[i] == x);
        }
        let prev = t.filter(child_of(v, p));
        assert(prev.push(x).map_values(f) =~= prev.map_values(f).push(f(x)));
    }
}

/// An entity that descends from `root` and is its own parent would make
/// `root` its own ancestor.
proof fn lemma_no_self_parent(v: HierarchyView, x: u64, root: u64, n: nat)
    requires
        v.ancestor_within(x, root, n),
        v.parents.contains_key(x),
        v.parents[x] == x,
    ensures
        v.is_ancestor(root, root),
    decreases n,
{
    if v.parents[x] == root {
        assert(v.ancestor_within(root, root, 1));
    } else {
        lemma_no_self_parent(v, x, root, (n - 1) as nat);
    }
}

/// Saving a subtree and relinking it into fresh entities reproduces its
/// shape: when the subtree under `root` is saved in `saved_order`, its
/// entities are spawned again as fresh entities `ents` (the one at each
/// position standing for the saved one there) with distinct identifiers,
/// each recording the identifier of its parent when that parent was saved
/// too, then after `link_by_uuid` every new entity has as parent the new
/// entity of its old parent (the subtree's root keeps none), and every new
/// entity's child list holds the new entities of its old children that were
/// saved, in their old order.
#[verifier::spinoff_prover]
#[verifier::rlimit(30)]
pub proof fn law_save_then_relink(
    v: HierarchyView,
    root: u64,
    identified: Set<u64>,
    w: HierarchyView,
    uuids: Seq<u128>,
    ents: Seq<u64>,
    parent_uuids: Seq<Option<u128>>,
)
    requires
        v.wf(),
        v.parents.dom().finite(),
        !v.is_ancestor(root, root),
        w.wf(),
        v.saved_order(root, identified).len() == uuids.len(),
        ents.len() == uuids.len(),
        parent_uuids.len() == uuids.len(),
        uuids.no_duplicates(),
        ents.no_duplicates(),
        forall|i: int|
            0 <= i < ents.len() ==> !w.parents.contains_key(#[trigger] ents[i])
                && !w.children.contains_key(ents[i]),
        forall|i: int, j: int|
            0 <= i < uuids.len() && 0 <= j < uuids.len() ==> ((parent_uuids[i] == Some(
                #[trigger] uuids[j],
            )) <==> (v.parents.contains_key(#[trigger] v.saved_order(root, identified)[i])
                && v.parents[v.saved_order(root, identified)[i]] == v.saved_order(
                root,
                identified,
            )[j])),
    ensures
        ({
            let saved = v.saved_order(root, identified);
            let n = uuids.len();
            let r = linked(w, spawned_by_uuid(uuids, ents, n), uuids, parent_uuids, n);
            &&& r.wf()
            &&& forall|i: int, j: int|
                0 <= i < n && 0 <= j < n ==> #[trigger] same_link(r, v, saved, ents, i, j)
            &&& forall|i: int|
                0 <= i < n && saved[i] != root ==> #[trigger] r.parents.contains_key(ents[i])
            &&& forall|i: int|
                0 <= i < n && saved[i] == root ==> !#[trigger] r.parents.contains_key(ents[i])
            &&& forall|j: int|
                0 <= j < n ==> #[trigger] r.kids(ents[j]) == v.kids(saved[j]).filter(
                    |x: u64| identified.contains(x),
                ).map_values(|x: u64| ents[saved.index_of(x)])
        }),
{
    let saved = v.saved_order(root, identified);
    let n = uuids.len();
    let r = linked(w, spawned_by_uuid(uuids, ents, n), uuids, parent_uuids, n);
    let ids = |x: u64| identified.contains(x);
    let ws = v.search(root, identified);
    lemma_search_done(v, root, identified);
    lemma_walk_inv(v, root, identified, ws.len());
    assert(saved == ws.filter(ids));
    lemma_filter_no_dups(ws, ids);
    law_saved_parents_saved(v, root, identified);
    // No saved entity is its own parent.
    assert forall|i: int| 0 <= i < saved.len() implies !(v.parents.contains_key(
        #[trigger] saved[i],
    ) && v.parents[saved[i]] == saved[i]) by {
        if v.parents.contains_key(saved[i]) && v.parents[saved[i]] == saved[i] {
            let x = saved[i];
            ws.lemma_filter_contains_rev(ids, x);
            let j = choose|j: int| 0 <= j < ws.len() && ws[j] == x;
            if j == 0 {
                assert(v.ancestor_within(root, root, 1));
            } else {
                lemma_no_self_parent(v, x, root, j as nat);
            }
            assert(v.is_ancestor(root, root));
        }
    }
    law_relink_restores_links(v, saved, w, uuids, ents, parent_uuids);
    assert forall|i: int| 0 <= i < n && saved[i] != root implies #[trigger] r.parents.contains_key(
        ents[i],
    ) by {
        assert(saved.contains(saved[i]));
        let q = v.parents[saved[i]];
        assert(saved.contains(q));
        let j = choose|j: int| 0 <= j < saved.len() && saved[j] == q;
        assert(same_link(r, v, saved, ents, i, j));
    }
    assert forall|i: int| 0 <= i < n && saved[i] == root implies !#[trigger] r.parents.contains_key(
        ents[i],
    ) by {
        if r.parents.contains_key(ents[i]) {
            let e = r.parents[ents[i]];
            let j = choose|j: int| 0 <= j < ents.len() && ents[j] == e;
            assert(same_link(r, v, saved, ents, i, j));
            // The root's parent is saved: it would descend from the root.
            assert(saved.contains(saved[j]));
            ws.lemma_filter_contains_rev(ids, saved[j]);
            let m = choose|m: int| 0 <= m < ws.len() && ws[m] == saved[j];
            if m == 0 {
                assert(v.ancestor_within(root, root, 1));
            } else {
                assert(v.ancestor_within(ws[m], root, m as nat));
                assert(v.ancestor_within(root, root, (m + 1) as nat));
            }
            assert(v.is_ancestor(root, root));
        }
    }
    assert forall|j: int| 0 <= j < n implies #[trigger] r.kids(ents[j]) == v.kids(saved[j]).filter(
        |x: u64| identified.contains(x),
    ).map_values(|x: u64| ents[saved.index_of(x)]) by {
        lemma_relinked_kids_map(v, saved, ents, saved[j], n);
        assert(saved.take(n as int) =~= saved);
        assert(saved.contains(saved[j]));
        law_saved_children_in_order(v, root, identified, saved[j]);
    }
}

/// Reaching `b` from `y` and then `c` from `b` reaches `c` from `y`.
proof fn lemma_ancestor_trans(v: HierarchyView, y: u64, b: u64, c: u64, i: nat, j: nat)
    requires
        v.ancestor_within(y, b, i),
        v.ancestor_within(b, c, j),
    ensures
        v.ancestor_within(y, c, i + j),
    decreases i,
{
    if v.parents[y] == b {
        assert(v.ancestor_within(y, c, j + 1));
        lemma_ancestor_mono(v, y, c, j + 1, i + j);
    } else {
        lemma_ancestor_trans(v, v.parents[y], b, c, (i - 1) as nat, j);
        assert((i - 1) as nat + j == (i + j - 1) as nat);
    }
}

/// When `w` differs from `v` at most in the parent link of `child`, a chain
/// in `w` from `y` to `a` is a chain in `v`, or follows `v` from `y` to
/// `child` in `m` links (`y` itself when `m` is 0) and then `w` from `child`
/// to `a` in the remaining links.
proof fn lemma_chain_through(v: HierarchyView, w: HierarchyView, child: u64, y: u64, a: u64, n: nat)
    requires
        forall|z: u64|
            z != child ==> (#[trigger] w.parents.contains_key(z) == v.parents.contains_key(z))
                && w.parents[z] == v.parents[z],
        w.ancestor_within(y, a, n),
    ensures
        v.ancestor_within(y, a, n) || exists|m: nat|
            m < n && #[trigger] w.ancestor_within(child, a, (n - m) as nat) && (m == 0 ==> y == child)
                && (m > 0 ==> v.ancestor_within(y, child, m)),
    decreases n,
{
    if y == child {
        assert(w.ancestor_within(child, a, (n - 0) as nat));
    } else {
        let py = w.parents[y];
        if py != a {
            lemma_chain_through(v, w, child, py, a, (n - 1) as nat);
            if !v.ancestor_within(py, a, (n - 1) as nat) {
                let m0 = choose|m: nat|
                    m < n - 1 && #[trigger] w.ancestor_within(child, a, (n - 1 - m) as nat) && (m
                        == 0 ==> py == child) && (m > 0 ==> v.ancestor_within(py, child, m));
                let m = m0 + 1;
                assert(v.ancestor_within(y, child, m));
                assert((n - m) as nat == (n - 1 - m0) as nat);
                assert(w.ancestor_within(child, a, (n - m) as nat));
            }
        }
    }
}

/// With `child` not its own ancestor, a `v`-chain to `child` is also a chain
/// in any `w` that differs from `v` at most in `child`'s own link.
proof fn lemma_chain_to_child(v: HierarchyView, w: HierarchyView, child: u64, y: u64, m: nat)
    requires
        forall|z: u64|
            z != child ==> (#[trigger] w.parents.contains_key(z) == v.parents.contains_key(z))
                && w.parents[z] == v.parents[z],
        !v.is_ancestor(child, child),
        v.ancestor_within(y, child, m),
    ensures
        w.ancestor_within(y, child, m),
    decreases m,
{
    if y == child {
        assert(v.is_ancestor(child, child));
    }
    assert(w.parents.contains_key(y) == v.parents.contains_key(y) && w.parents[y] == v.parents[y]);
    if v.parents[y] != child {
        lemma_chain_to_child(v, w, child, v.parents[y], (m - 1) as nat);
    }
}

/// Reparenting keeps the hierarchy free of cycles as long as the new parent
/// does not descend from the entity being moved: if no entity of `v` is its
/// own ancestor and `parent` is not a descendant of `child`, then no entity
/// of `v.set_parent(child, parent)` is its own ancestor either.
pub proof fn law_set_parent_acyclic(v: HierarchyView, child: u64, parent: Option<u64>)
    requires
        v.wf(),
        forall|x: u64| !#[trigger] v.is_ancestor(x, x),
        parent matches Some(p) ==> !v.is_ancestor(child, p),
    ensures
        forall|x: u64| !#[trigger] v.set_parent(child, parent).is_ancestor(x, x),
{
    let w = v.set_parent(child, parent);
    assert forall|z: u64| z != child implies (#[trigger] w.parents.contains_key(z)
        == v.parents.contains_key(z)) && w.parents[z] == v.parents[z] by {}
    assert(!v.is_ancestor(child, child));
    assert forall|x: u64| !#[trigger] w.is_ancestor(x, x) by {
        if w.is_ancestor(x, x) {
            let n = choose|n: nat| w.ancestor_within(x, x, n);
            lemma_chain_through(v, w, child, x, x, n);
            if v.ancestor_within(x, x, n) {
                assert(v.is_ancestor(x, x));
            } else {
                let m = choose|m: nat|
                    m < n && #[trigger] w.ancestor_within(child, x, (n - m) as nat) && (m == 0
                        ==> x == child) && (m > 0 ==> v.ancestor_within(x, child, m));
                // `child` lies on the cycle.
                let k: nat = if m == 0 {
                    (n - m) as nat
                } else {
                    lemma_chain_to_child(v, w, child, x, m);
                    lemma_ancestor_trans(w, child, x, child, (n - m) as nat, m);
                    ((n - m) + m) as nat
                };
                assert(w.ancestor_within(child, child, k));
                // Its new parent would then descend from it.
                assert(w.parents.contains_key(child));
                if w == v {
                    assert(v.is_ancestor(child, child));
                } else {
                    let p = parent->0;
                    assert(w.parents[child] == p);
                    assert(p != child);
                    assert(w.ancestor_within(p, child, (k - 1) as nat));
                    lemma_chain_through(v, w, child, p, child, (k - 1) as nat);
                    if v.ancestor_within(p, child, (k - 1) as nat) {
                        assert(v.is_ancestor(child, p));
                    } else {
                        let m2 = choose|m2: nat|
                            m2 < k - 1 && #[trigger] w.ancestor_within(child, child, (k - 1 - m2) as nat)
                                && (m2 == 0 ==> p == child) && (m2 > 0 ==> v.ancestor_within(
                                p,
                                child,
                                m2,
                            ));
                        assert(v.is_ancestor(child, p));
                    }
                }
            }
        }
    }
}

/// After `set_parent(child, Some(p))` with `p != child`, `p` is the parent of
/// `child` and its child list names `child`; after `set_parent(child, None)`
/// `child` has no parent and no child list names it.
pub proof fn law_set_parent_links(v: HierarchyView, child: u64, parent: Option<u64>)
    requires
        v.wf(),
        parent != Some(child),
    ensures
        ({
            let w = v.set_parent(child, parent);
            match parent {
                Some(p) => w.parents.contains_key(child) && w.parents[child] == p
                    && w.children.contains_key(p) && w.children[p].contains(child),
                None => !w.parents.contains_key(child) && forall|q: u64|
                    #[trigger] w.children.contains_key(q) ==> !w.children[q].contains(child),
            }
        }),
{
    lemma_set_parent_wf(v, child, parent);
    let w = v.set_parent(child, parent);
    if parent is None {
        assert forall|q: u64| #[trigger] w.children.contains_key(q) implies !w.children[q].contains(
            child,
        ) by {
            if w.children[q].contains(child) {
                let i = choose|i: int| 0 <= i < w.children[q].len() && w.children[q][i] == child;
                assert(w.parents.contains_key(w.children[q][i]));
            }
        }
    }
}

/// Setting the same parent twice is the same as setting it once.
pub proof fn law_set_parent_idempotent(v: HierarchyView, child: u64, parent: Option<u64>)
    requires
        v.wf(),
    ensures
        v.set_parent(child, parent).set_parent(child, parent) == v.set_parent(child, parent),
{
    if parent != Some(child) {
        law_set_parent_links(v, child, parent);
    }
}

/// Moving an entity to another parent and back restores every parent link
/// (the entity is then last in its old parent's child list). It fails for an
/// entity that is its own parent, which `set_parent` leaves alone.
pub proof fn law_reparent_undo(v: HierarchyView, child: u64, parent: Option<u64>)
    requires
        v.wf(),
        !(v.parents.contains_key(child) && v.parents[child] == child),
    ensures
        ({
            let before = if v.parents.contains_key(child) {
                Some(v.parents[child])
            } else {
                None
            };
            v.set_parent(child, parent).set_parent(child, before).parents == v.parents
        }),
{
    let before = if v.parents.contains_key(child) {
        Some(v.parents[child])
    } else {
        None
    };
    let w = v.set_parent(child, parent);
    if parent == Some(child) || before == parent {
    } else {
        law_set_parent_links(v, child, parent);
        lemma_set_parent_wf(v, child, parent);
        assert(w.set_parent(child, before).parents =~= v.parents);
    }
}

/// After removing the subtree under `root`, no entity of it keeps a parent
/// link or a child list, no child list names `root`, and every other entity
/// keeps its parent.
proof fn lemma_remove_subtree_unlinks(v: HierarchyView, root: u64)
    requires
        v.wf(),
        subtree_facts(v, root, v.subtree(root)),
    ensures
        ({
            let w = v.remove_subtree(root);
            &&& forall|x: u64|
                #[trigger] v.subtree(root).contains(x) ==> !w.parents.contains_key(x)
                    && !w.children.contains_key(x)
            &&& forall|q: u64| #[trigger] w.children.contains_key(q) ==> !w.children[q].contains(root)
            &&& forall|x: u64|
                #[trigger] v.parents.contains_key(x) && !v.subtree(root).contains(x)
                    ==> w.parents.contains_key(x) && w.parents[x] == v.parents[x]
        }),
{
    let r = v.subtree(root);
    lemma_remove_subtree_wf(v, root);
    let w = v.remove_subtree(root);
    assert forall|q: u64| #[trigger] w.children.contains_key(q) implies !w.children[q].contains(
        root,
    ) by {
        if w.children[q].contains(root) {
            let i = choose|i: int| 0 <= i < w.children[q].len() && w.children[q][i] == root;
            assert(w.parents.contains_key(w.children[q][i]));
            assert(r[0] == root);
            assert(r.to_set().contains(root));
        }
    }
    assert forall|x: u64| #[trigger] v.subtree(root).contains(x) implies !w.parents.contains_key(x)
        && !w.children.contains_key(x) by {
        assert(r.to_set().contains(x));
    }
}

/// A longer allowance of steps still reaches the ancestor.
pub proof fn lemma_ancestor_mono(v: HierarchyView, x: u64, a: u64, n: nat, m: nat)
    requires
        v.ancestor_within(x, a, n),
        n <= m,
    ensures
        v.ancestor_within(x, a, m),
    decreases n,
{
    if v.parents[x] != a {
        lemma_ancestor_mono(v, v.parents[x], a, (n - 1) as nat, (m - 1) as nat);
    }
}

/// Once the walk has expanded everything it listed, it stays as it is.
pub proof fn lemma_walk_stable(v: HierarchyView, root: u64, ex: Set<u64>, k: nat, m: nat)
    requires
        v.walk(root, ex, k).len() == k,
        k <= m,
    ensures
        v.walk(root, ex, m) == v.walk(root, ex, k),
    decreases m,
{
    if m > k {
        lemma_walk_stable(v, root, ex, k, (m - 1) as nat);
    }
}

/// A walk that has visited all it listed is the search result.
pub proof fn lemma_walk_is_search(v: HierarchyView, root: u64, ex: Set<u64>, k: nat)
    requires
        v.walk(root, ex, k).len() == k,
    ensures
        v.search(root, ex) == v.walk(root, ex, k),
{
    let j = choose|j: nat| v.walk(root, ex, j).len() == j;
    if j <= k {
        lemma_walk_stable(v, root, ex, j, k);
    } else {
        lemma_walk_stable(v, root, ex, k, j);
    }
}

/// What a breadth-first subtree list `r` under `root` satisfies: it starts
/// with `root`, names no entity twice, lists every child of every entity it
/// lists, and every later entity has a parent listed before it and descends
/// from `root`.
pub open spec fn subtree_facts(v: HierarchyView, root: u64, r: Seq<u64>) -> bool {
    search_facts(v, root, Set::full(), r)
}

/// What the breadth-first list `r` from `root`, descending only into
/// entities of `ex`, satisfies: it starts with `root`, names no entity
/// twice, lists every child of every listed entity of `ex`, and every later
/// entity has a parent listed before it and descends from `root`.
pub open spec fn search_facts(v: HierarchyView, root: u64, ex: Set<u64>, r: Seq<u64>) -> bool {
    &&& r.len() > 0
    &&& r[0] == root
    &&& r.no_duplicates()
    &&& forall|j: int|
        #![trigger r[j]]
        1 <= j < r.len() ==> v.parents.contains_key(r[j]) && (exists|m: int|
            0 <= m < j && r[m] == v.parents[r[j]]) && v.ancestor_within(r[j], root, j as nat)
    &&& forall|m: int, t: int|
        #![trigger v.kids_in(r[m], ex)[t]]
        0 <= m < r.len() && 0 <= t < v.kids_in(r[m], ex).len() ==> r.contains(v.kids_in(r[m], ex)[t])
}

/// Removing a subtree keeps the parent links and the child lists
/// consistent.
proof fn lemma_remove_subtree_wf(v: HierarchyView, root: u64)
    requires
        v.wf(),
        subtree_facts(v, root, v.subtree(root)),
    ensures
        v.remove_subtree(root).wf(),
{
    let r = v.subtree(root);
    let g = r.to_set();
    let w = v.remove_subtree(root);
    let has_q0 = v.parents.contains_key(root) && v.children.contains_key(v.parents[root]);
    let q0 = v.parents[root];
    let d = if has_q0 {
        v.children.insert(q0, without(v.children[q0], root))
    } else {
        v.children
    };
    if has_q0 {
        lemma_without(v.children[q0], root);
    }
    assert(w.children == d.remove_keys(g));
    assert forall|c: u64| #[trigger] w.parents.contains_key(c) implies w.children.contains_key(
        w.parents[c],
    ) && w.children[w.parents[c]].contains(c) by {
        let q = v.parents[c];
        assert(!g.contains(c));
        if g.contains(q) {
            let m = choose|m: int| 0 <= m < r.len() && r[m] == q;
            let t = choose|t: int| 0 <= t < v.children[q].len() && v.children[q][t] == c;
            assert(Set::<u64>::full().contains(q));
            assert(v.kids_in(r[m], Set::full())[t] == c);
            assert(r.contains(c));
        }
        if has_q0 && q == q0 {
            assert(c != root) by {
                assert(r[0] == root);
            }
        }
    }
    assert forall|p: u64, i: int|
        #![trigger w.children[p][i]]
        w.children.contains_key(p) && 0 <= i < w.children[p].len() implies w.parents.contains_key(
        w.children[p][i],
    ) && w.parents[w.children[p][i]] == p by {
        let c = w.children[p][i];
        assert(!g.contains(p));
        assert(d[p][i] == c);
        if has_q0 && p == q0 {
            assert(without(v.children[p], root).contains(c));
            let t = choose|t: int| 0 <= t < v.children[p].len() && v.children[p][t] == c;
            assert(v.parents[c] == p);
        } else {
            assert(v.children[p][i] == c);
            assert(v.parents[c] == p);
        }
        if g.contains(c) {
            let j = choose|j: int| 0 <= j < r.len() && r[j] == c;
            if j == 0 {
                assert(c == root);
            } else {
                assert(r[j] == c);
                let m = choose|m: int| 0 <= m < j && r[m] == v.parents[r[j]];
                assert(g.contains(r[m]));
            }
        }
    }
    assert forall|p: u64| #[trigger] w.children.contains_key(p) implies w.children[p].no_duplicates() by {
        assert(d[p] == w.children[p]);
    }
}

/// The entity reached from `x` by following `n` parent links, if the links
/// go that far.
pub open spec fn nth_ancestor(v: HierarchyView, x: u64, n: nat) -> Option<u64>
    decreases n,
{
    if n == 0 {
        Some(x)
    } else if v.parents.contains_key(x) {
        nth_ancestor(v, v.parents[x], (n - 1) as nat)
    } else {
        None
    }
}

/// One more link at the top of the chain.
proof fn lemma_nth_ancestor_step(v: HierarchyView, x: u64, n: nat)
    ensures
        nth_ancestor(v, x, n + 1) == (match nth_ancestor(v, x, n) {
            Some(y) => if v.parents.contains_key(y) {
                Some(v.parents[y])
            } else {
                None
            },
            None => None,
        }),
    decreases n,
{
    reveal_with_fuel(nth_ancestor, 2);
    if n > 0 && v.parents.contains_key(x) {
        lemma_nth_ancestor_step(v, v.parents[x], (n - 1) as nat);
    }
}

/// Following `i` links and then `t` more is following `i + t` links.
proof fn lemma_nth_ancestor_add(v: HierarchyView, x: u64, i: nat, t: nat)
    requires
        nth_ancestor(v, x, i) is Some,
    ensures
        nth_ancestor(v, x, i + t) == nth_ancestor(v, nth_ancestor(v, x, i)->0, t),
    decreases i,
{
    if i > 0 {
        lemma_nth_ancestor_add(v, v.parents[x], (i - 1) as nat, t);
        assert((i - 1) as nat + t == (i + t - 1) as nat);
    }
}

/// Once the chain ends it stays ended.
proof fn lemma_nth_ancestor_ended(v: HierarchyView, x: u64, n: nat, m: nat)
    requires
        nth_ancestor(v, x, n) is None,
        n <= m,
    ensures
        nth_ancestor(v, x, m) is None,
    decreases m,
{
    if m > n {
        lemma_nth_ancestor_ended(v, x, n, (m - 1) as nat);
        lemma_nth_ancestor_step(v, x, (m - 1) as nat);
    }
}

/// `a` is reached from `x` within `n` steps exactly when some chain of one
/// to `n` links from `x` ends at `a`.
proof fn lemma_ancestor_within_nth(v: HierarchyView, x: u64, a: u64, n: nat)
    ensures
        v.ancestor_within(x, a, n) <==> exists|k: nat|
            1 <= k <= n && #[trigger] nth_ancestor(v, x, k) == Some(a),
    decreases n,
{
    if n > 0 {
        lemma_ancestor_within_nth(v, v.parents[x], a, (n - 1) as nat);
        if v.ancestor_within(x, a, n) {
            if v.parents[x] == a {
                reveal_with_fuel(nth_ancestor, 2);
                assert(nth_ancestor(v, x, 1) == Some(a));
            } else {
                let k = choose|k: nat|
                    1 <= k <= n - 1 && #[trigger] nth_ancestor(v, v.parents[x], k) == Some(a);
                assert(nth_ancestor(v, x, k + 1) == Some(a));
            }
        }
        if exists|k: nat| 1 <= k <= n && #[trigger] nth_ancestor(v, x, k) == Some(a) {
            let k = choose|k: nat| 1 <= k <= n && #[trigger] nth_ancestor(v, x, k) == Some(a);
            assert(v.parents.contains_key(x));
            if k > 1 {
                assert(nth_ancestor(v, v.parents[x], (k - 1) as nat) == Some(a));
            }
        }
    }
}

/// If `x` is its own ancestor, the chain from `x` comes back to `x` within
/// as many links as there are entities with a parent.
proof fn lemma_cycle_short(v: HierarchyView, x: u64, m: nat)
    requires
        v.parents.dom().finite(),
        m >= 1,
        nth_ancestor(v, x, m) == Some(x),
        forall|k: nat| 1 <= k < m ==> #[trigger] nth_ancestor(v, x, k) != Some(x),
    ensures
        m <= v.parents.dom().len(),
{
    // The first `m` entities of the chain are distinct and all have parents.
    assert forall|i: nat| i < m implies #[trigger] nth_ancestor(v, x, i) is Some
        && v.parents.contains_key(nth_ancestor(v, x, i)->0) by {
        if nth_ancestor(v, x, i) is None {
            lemma_nth_ancestor_ended(v, x, i, m);
        }
        lemma_nth_ancestor_step(v, x, i);
        if !v.parents.contains_key(nth_ancestor(v, x, i)->0) {
            lemma_nth_ancestor_ended(v, x, i + 1, m);
        }
    }
    let chain = Seq::new(m, |i: int| nth_ancestor(v, x, i as nat)->0);
    assert forall|i: int, j: int| 0 <= i < j < m implies chain[i] != chain[j] by {
        if chain[i] == chain[j] {
            let t = (m - j) as nat;
            lemma_nth_ancestor_add(v, x, i as nat, t);
            lemma_nth_ancestor_add(v, x, j as nat, t);
            assert(j + t == m);
            assert(nth_ancestor(v, x, (i + t) as nat) == Some(x));
            if i == 0 {
                assert(1 <= t < m);
            } else {
                assert(1 <= i + t < m);
            }
        }
    }
    assert(chain.no_duplicates()) by {
        assert forall|i: int, j: int| 0 <= i < chain.len() && 0 <= j < chain.len() && i != j implies chain[i]
            != chain[j] by {
            if i < j {
            } else {
            }
        }
    }
    chain.unique_seq_to_set();
    assert forall|y: u64| chain.to_set().contains(y) implies v.parents.dom().contains(y) by {
        let i = choose|i: int| 0 <= i < chain.len() && chain[i] == y;
        assert(nth_ancestor(v, x, i as nat) is Some);
    }
    vstd::set_lib::lemma_len_subset(chain.to_set(), v.parents.dom());
}

/// If the chain from `x` comes back to `x`, it first does so within as many
/// links as there are entities with a parent.
proof fn lemma_first_return(v: HierarchyView, x: u64, m: nat)
    requires
        v.parents.dom().finite(),
        m >= 1,
        nth_ancestor(v, x, m) == Some(x),
    ensures
        exists|k: nat| 1 <= k <= v.parents.dom().len() && #[trigger] nth_ancestor(v, x, k) == Some(x),
    decreases m,
{
    if exists|k: nat| 1 <= k < m && #[trigger] nth_ancestor(v, x, k) == Some(x) {
        let k = choose|k: nat| 1 <= k < m && #[trigger] nth_ancestor(v, x, k) == Some(x);
        lemma_first_return(v, x, k);
    } else {
        lemma_cycle_short(v, x, m);
    }
}

/// The scene graph.
pub struct Hierarchy {
    parents: HashMap<u64, u64>,
    children: HashMap<u64, Vec<u64>>,
}

impl View for Hierarchy {
    type V = HierarchyView;

    closed spec fn view(&self) -> HierarchyView {
        HierarchyView {
            parents: self.parents@,
            children: self.children@.map_values(|l: Vec<u64>| l@),
        }
    }
}

/// A copy of `list` without any occurrence of `x`.
fn copy_without(list: &Vec<u64>, x: u64) -> (r: Vec<u64>)
    ensures
        r@ == without(list@, x),
{
    let mut r: Vec<u64> = Vec::new();
    let mut i: usize = 0;
    while i < list.len()
        invariant
            i <= list.len(),
            r@ == without(list@.take(i as int), x),
        decreases list.len() - i,
    {
        proof {
            assert(list@.take(i + 1) =~= list@.take(i as int).push(list@[i as int]));
            lemma_without_push(list@.take(i as int), list@[i as int], x);
        }
        if list[i] != x {
            r.push(list[i]);
        }
        i = i + 1;
    }
    assert(list@.take(list.len() as int) =~= list@);
    r
}

impl Hierarchy {
    /// An empty hierarchy.
    pub fn new() -> (h: Self)
        ensures
            h@.wf(),
            h@.parents == Map::<u64, u64>::empty(),
            h@.children == Map::<u64, Seq<u64>>::empty(),
    {
        let h = Hierarchy { parents: HashMap::new(), children: HashMap::new() };
        assert(h@.children =~= Map::<u64, Seq<u64>>::empty());
        h
    }

    /// The parent of `e`, if it has one.
    pub fn parent_of(&self, e: u64) -> (r: Option<u64>)
        ensures
            r == (if self@.parents.contains_key(e) {
                Some(self@.parents[e])
            } else {
                None::<u64>
            }),
    {
        match self.parents.get(&e) {
            Some(p) => Some(*p),
            None => None,
        }
    }

    /// Whether `e` is its own ancestor, that is, lies on a cycle of parent
    /// links (around which walking the subtree under `e` would never end).
    pub fn on_cycle(&self, e: u64) -> (r: bool)
        ensures
            r == self@.is_ancestor(e, e),
    {
        let ghost v = self@;
        let bound = self.parents.len();
        let mut cur = e;
        let mut steps: usize = 0;
        while steps < bound
            invariant
                v == self@,
                bound == v.parents.dom().len(),
                v.parents.dom().finite(),
                steps <= bound,
                nth_ancestor(v, e, steps as nat) == Some(cur),
                forall|k: nat| 1 <= k <= steps ==> #[trigger] nth_ancestor(v, e, k) != Some(e),
            decreases bound - steps,
        {
            proof {
                lemma_nth_ancestor_step(v, e, steps as nat);
            }
            match self.parents.get(&cur) {
                None => {
                    proof {
                        assert forall|n: nat| !v.ancestor_within(e, e, n) by {
                            lemma_ancestor_within_nth(v, e, e, n);
                            assert forall|k: nat| 1 <= k <= n implies #[trigger] nth_ancestor(v, e, k)
                                != Some(e) by {
                                if k > steps {
                                    lemma_nth_ancestor_ended(v, e, (steps + 1) as nat, k);
                                }
                            }
                        }
                    }
                    return false;
                },
                Some(p) => {
                    if *p == e {
                        proof {
                            lemma_ancestor_within_nth(v, e, e, (steps + 1) as nat);
                            assert(v.ancestor_within(e, e, (steps + 1) as nat));
                        }
                        return true;
                    }
                    cur = *p;
                    steps = steps + 1;
                },
            }
        }
        proof {
            assert forall|n: nat| !v.ancestor_within(e, e, n) by {
                lemma_ancestor_within_nth(v, e, e, n);
                if v.ancestor_within(e, e, n) {
                    // The first return to `e` would come within `bound` links.
                    let m = choose|k: nat| 1 <= k <= n && #[trigger] nth_ancestor(v, e, k) == Some(e);
                    lemma_first_return(v, e, m);
                }
            }
        }
        false
    }

    /// The children of `e`, in order; empty when it has none.
    pub fn children_of(&self, e: u64) -> (r: Vec<u64>)
        ensures
            r@ == self@.kids(e),
    {
        match self.children.get(&e) {
            Some(list) => list.clone(),
            None => Vec::new(),
        }
    }

    /// The breadth-first walk from `root` that descends only into entities
    /// of `expand` (into all of them when `expand` is `None`). `root` must not
    /// lie on a cycle of parent links, around which the walk would never end.
    fn search(&self, root: u64, expand: Option<&HashSet<u64>>) -> (r: Vec<u64>)
        requires
            self@.wf(),
            !self@.is_ancestor(root, root),
        ensures
            r@ == self@.search(root, expand_set(expand)),
            search_facts(self@, root, expand_set(expand), r@),
    {
        let ghost v = self@;
        let ghost ex = expand_set(expand);
        let mut r: Vec<u64> = Vec::new();
        r.push(root);
        let ghost mut from: Seq<int> = seq![0int];
        let mut idx: usize = 0;
        proof {
            assert(r@ =~= v.walk(root, ex, 0));
        }
        while idx < r.len()
            invariant
                v == self@,
                ex == expand_set(expand),
                v.wf(),
                !v.is_ancestor(root, root),
                idx <= r@.len(),
                r@ == v.walk(root, ex, idx as nat),
                r@[0] == root,
                r@.no_duplicates(),
                from.len() == r@.len(),
                forall|j: int|
                    #![trigger r@[j]]
                    1 <= j < r@.len() ==> v.parents.contains_key(r@[j]),
                forall|j: int| #![trigger from[j]] 1 <= j < r@.len() ==> 0 <= from[j] < j,
                forall|j: int| #![trigger from[j]] 1 <= j < r@.len() ==> from[j] < idx,
                forall|j: int| #![trigger r@[j]] 1 <= j < r@.len() ==> r@[from[j]] == v.parents[r@[j]],
                forall|j: int|
                    #![trigger r@[j]]
                    1 <= j < r@.len() ==> v.ancestor_within(r@[j], root, j as nat),
                forall|m: int, t: int|
                    #![trigger v.kids_in(r@[m], ex)[t]]
                    0 <= m < idx && 0 <= t < v.kids_in(r@[m], ex).len() ==> r@.contains(
                        v.kids_in(r@[m], ex)[t],
                    ),
            decreases v.parents.dom().len() + 1 - idx,
        {
            proof {
                // The walk lists at most one more entity than have parents.
                let tail = r@.drop_first();
                assert forall|j: int| 0 <= j < tail.len() implies #[trigger] tail[j] == r@[j + 1] by {
                }
                assert(tail.no_duplicates()) by {
                    assert forall|a: int, b: int|
                        0 <= a < tail.len() && 0 <= b < tail.len() && a != b implies tail[a]
                        != tail[b] by {
                        assert(tail[a] == r@[a + 1]);
                        assert(tail[b] == r@[b + 1]);
                    }
                }
                tail.unique_seq_to_set();
                assert(tail.to_set().subset_of(v.parents.dom())) by {
                    assert forall|x: u64| tail.to_set().contains(x) implies v.parents.dom().contains(
                        x,
                    ) by {
                        let j = choose|j: int| 0 <= j < tail.len() && tail[j] == x;
                        assert(r@[j + 1] == x);
                    }
                }
                vstd::set_lib::lemma_len_subset(tail.to_set(), v.parents.dom());
            }
            let curr = r[idx];
            let into = expands(expand, curr);
            let kids = if into {
                self.children_of(curr)
            } else {
                Vec::new()
            };
            let ghost old_r = r@;
            let ghost k = kids@;
            assert(k =~= v.kids_in(curr, ex));
            proof {
                // No child of `curr` is listed yet.
                assert forall|t: int, j: int|
                    0 <= t < k.len() && 0 <= j < old_r.len() implies #[trigger] k[t] != #[trigger] old_r[j] by {
                    assert(ex.contains(curr));
                    assert(v.children.contains_key(curr));
                    assert(v.parents[k[t]] == curr);
                    if k[t] == old_r[j] {
                        if j == 0 {
                            if idx == 0 {
                                assert(v.ancestor_within(root, root, 1));
                            } else {
                                assert(v.ancestor_within(root, root, (idx + 1) as nat));
                            }
                        } else {
                            assert(old_r[from[j]] == curr);
                        }
                    }
                }
            }
            let mut kids = kids;
            r.append(&mut kids);
            proof {
                assert(k =~= v.kids_in(curr, ex));
                assert(r@ =~= old_r + k);
                assert(r@ == v.walk(root, ex, (idx + 1) as nat));
                let n0 = old_r.len();
                let old_from = from;
                from = from + Seq::new(k.len(), |t: int| idx as int);
                assert forall|a: int, b: int|
                    0 <= a < r@.len() && 0 <= b < r@.len() && a != b implies r@[a] != r@[b] by {
                    if a < n0 && b < n0 {
                    } else if a >= n0 && b >= n0 {
                        assert(k.no_duplicates());
                        assert(r@[a] == k[a - n0]);
                        assert(r@[b] == k[b - n0]);
                    } else if a < n0 {
                        assert(r@[b] == k[b - n0]);
                        assert(k[b - n0] != old_r[a]);
                    } else {
                        assert(r@[a] == k[a - n0]);
                        assert(k[a - n0] != old_r[b]);
                    }
                }
                assert forall|j: int|
                    #![trigger r@[j]]
                    #![trigger from[j]]
                    1 <= j < r@.len() implies v.parents.contains_key(r@[j]) && 0 <= from[j] < j
                        && from[j] < idx + 1 && r@[from[j]] == v.parents[r@[j]]
                        && v.ancestor_within(r@[j], root, j as nat) by {
                    if j < n0 {
                        assert(r@[j] == old_r[j]);
                        assert(from[j] == old_from[j]);
                        assert(r@[from[j]] == old_r[from[j]]);
                    } else {
                        assert(from[j] == idx);
                        assert(r@[idx as int] == curr);
                        assert(r@[j] == k[j - n0]);
                        assert(ex.contains(curr));
                        assert(v.children.contains_key(curr));
                        assert(v.parents[k[j - n0]] == curr);
                        if idx == 0 {
                            assert(v.ancestor_within(r@[j], root, 1));
                        } else {
                            assert(v.ancestor_within(curr, root, idx as nat));
                            assert(v.ancestor_within(r@[j], root, (idx + 1) as nat));
                        }
                        lemma_ancestor_mono(v, r@[j], root, (idx + 1) as nat, j as nat);
                    }
                }
                assert forall|m: int, t: int|
                    #![trigger v.kids_in(r@[m], ex)[t]]
                    0 <= m < idx + 1 && 0 <= t < v.kids_in(r@[m], ex).len() implies r@.contains(
                        v.kids_in(r@[m], ex)[t],
                    ) by {
                    if m < idx {
                        assert(r@[m] == old_r[m]);
                        assert(old_r.contains(v.kids_in(old_r[m], ex)[t]));
                        let j = choose|j: int| 0 <= j < old_r.len() && old_r[j] == v.kids_in(old_r[m], ex)[t];
                        assert(r@[j] == old_r[j]);
                    } else {
                        assert(r@[m] == curr);
                        assert(r@[n0 + t] == k[t]);
                    }
                }
            }
            idx = idx + 1;
        }
        proof {
            lemma_walk_is_search(v, root, ex, idx as nat);
        }
        r
    }

    /// The entities of the subtree under `root`, `root` first, in
    /// breadth-first order. `root` must not lie on a cycle of parent links,
    /// around which the walk would never end.
    pub fn collect_subtree(&self, root: u64) -> (r: Vec<u64>)
        requires
            self@.wf(),
            !self@.is_ancestor(root, root),
        ensures
            r@ == self@.subtree(root),
            subtree_facts(self@, root, r@),
    {
        self.search(root, None)
    }

    /// The order in which the subtree under `root` is saved: breadth-first,
    /// listing and descending into only the entities of `identified` (those
    /// that carry a persistent identifier).
    pub fn saved_order(&self, root: u64, identified: &HashSet<u64>) -> (r: Vec<u64>)
        requires
            self@.wf(),
            !self@.is_ancestor(root, root),
        ensures
            r@ == self@.saved_order(root, identified@),
    {
        let walked = self.search(root, Some(identified));
        let mut r: Vec<u64> = Vec::new();
        let mut i: usize = 0;
        while i < walked.len()
            invariant
                i <= walked@.len(),
                r@ == walked@.take(i as int).filter(|x: u64| identified@.contains(x)),
            decreases walked@.len() - i,
        {
            proof {
                assert(walked@.take(i + 1) =~= walked@.take(i as int).push(walked@[i as int]));
                walked@.take(i as int).lemma_filter_push(
                    walked@[i as int],
                    |x: u64| identified@.contains(x),
                );
            }
            if identified.contains(&walked[i]) {
                r.push(walked[i]);
            }
            i = i + 1;
        }
        assert(walked@.take(walked@.len() as int) =~= walked@);
        r
    }

    /// Removes the subtree under `root`: `root` leaves its parent's child
    /// list and every entity of the subtree loses its links. Returns the
    /// removed entities in breadth-first order, `root` first.
    pub fn remove_subtree(&mut self, root: u64) -> (removed: Vec<u64>)
        requires
            old(self)@.wf(),
            !old(self)@.is_ancestor(root, root),
        ensures
            final(self)@.wf(),
            removed@ == old(self)@.subtree(root),
            final(self)@ == old(self)@.remove_subtree(root),
            subtree_facts(old(self)@, root, removed@),
            forall|x: u64|
                #[trigger] removed@.contains(x) ==> !final(self)@.parents.contains_key(x)
                    && !final(self)@.children.contains_key(x),
            forall|q: u64| #[trigger]
                final(self)@.children.contains_key(q) ==> !final(self)@.children[q].contains(root),
            forall|x: u64|
                #[trigger] old(self)@.parents.contains_key(x) && !removed@.contains(x)
                    ==> final(self)@.parents.contains_key(x) && final(self)@.parents[x] == old(
                    self,
                )@.parents[x],
    {
        let ghost v = self@;
        let removed = self.collect_subtree(root);
        let ghost d = if v.parents.contains_key(root) && v.children.contains_key(v.parents[root]) {
            v.children.insert(v.parents[root], without(v.children[v.parents[root]], root))
        } else {
            v.children
        };
        if let Some(p) = self.parent_of(root) {
            if let Some(list) = self.children.remove(&p) {
                let kept = copy_without(&list, root);
                self.children.insert(p, kept);
            }
        }
        assert(self@.children =~= d);
        let mut i: usize = 0;
        while i < removed.len()
            invariant
                i <= removed@.len(),
                removed@ == v.subtree(root),
                self@.parents == v.parents.remove_keys(removed@.take(i as int).to_set()),
                self@.children == d.remove_keys(removed@.take(i as int).to_set()),
            decreases removed@.len() - i,
        {
            let x = removed[i];
            let ghost c_before = self@.children;
            self.parents.remove(&x);
            self.children.remove(&x);
            proof {
                assert(self@.children =~= c_before.remove(x));
                let before = removed@.take(i as int).to_set();
                assert(removed@.take(i + 1).to_set() =~= before.insert(x)) by {
                    assert(removed@.take(i + 1) =~= removed@.take(i as int).push(x));
                    removed@.take(i as int).lemma_push_to_set_commute(x);
                }
                assert(self@.parents =~= v.parents.remove_keys(before.insert(x)));
                assert(self@.children =~= d.remove_keys(before.insert(x)));
            }
            i = i + 1;
        }
        proof {
            assert(removed@.take(removed@.len() as int) =~= removed@);
            lemma_remove_subtree_wf(v, root);
            lemma_remove_subtree_unlinks(v, root);
            assert(self@ =~= v.remove_subtree(root));
        }
        removed
    }

    /// Links freshly spawned entities to their parents by persistent
    /// identifier: `entities[i]` was spawned for `uuids[i]`, and each one
    /// whose `parent_uuids[i]` was spawned too becomes that entity's child,
    /// in list order.
    pub fn link_by_uuid(
        &mut self,
        uuids: &Vec<u128>,
        entities: &Vec<u64>,
        parent_uuids: &Vec<Option<u128>>,
    )
        requires
            old(self)@.wf(),
            uuids@.len() == entities@.len(),
            uuids@.len() == parent_uuids@.len(),
        ensures
            final(self)@.wf(),
            final(self)@ == linked(
                old(self)@,
                spawned_by_uuid(uuids@, entities@, uuids@.len()),
                uuids@,
                parent_uuids@,
                uuids@.len(),
            ),
    {
        let mut by_uuid: HashMap<u128, u64> = HashMap::new();
        let mut i: usize = 0;
        while i < uuids.len()
            invariant
                i <= uuids@.len(),
                uuids@.len() == entities@.len(),
                by_uuid@ == spawned_by_uuid(uuids@, entities@, i as nat),
            decreases uuids@.len() - i,
        {
            by_uuid.insert(uuids[i], entities[i]);
            i = i + 1;
        }
        let ghost m = by_uuid@;
        let ghost v = self@;
        let mut j: usize = 0;
        while j < uuids.len()
            invariant
                j <= uuids@.len(),
                uuids@.len() == parent_uuids@.len(),
                by_uuid@ == m,
                self@.wf(),
                self@ == linked(v, m, uuids@, parent_uuids@, j as nat),
            decreases uuids@.len() - j,
        {
            if let Some(pu) = parent_uuids[j] {
                if let Some(child) = by_uuid.get(&uuids[j]) {
                    if let Some(parent) = by_uuid.get(&pu) {
                        self.set_parent(*child, Some(*parent));
                    }
                }
            }
            j = j + 1;
        }
    }

    /// Makes `parent` the parent of `child` (`None`: makes it a root).
    /// Returns whether the hierarchy changed; it does not when `child` would
    /// become its own parent or already has that parent.
    pub fn set_parent(&mut self, child: u64, parent: Option<u64>) -> (changed: bool)
        requires
            old(self)@.wf(),
        ensures
            final(self)@.wf(),
            final(self)@ == old(self)@.set_parent(child, parent),
            changed == (final(self)@ != old(self)@),
    {
        if parent == Some(child) {
            return false;
        }
        let current = self.parent_of(child);
        if current == parent {
            return false;
        }
        let ghost v0 = self@;
        if let Some(old_parent) = current {
            if let Some(list) = self.children.remove(&old_parent) {
                let kept = copy_without(&list, child);
                self.children.insert(old_parent, kept);
                assert(self@.children =~= v0.children.insert(
                    old_parent,
                    without(v0.children[old_parent], child),
                ));
            } else {
                assert(self@.children =~= v0.children);
            }
        }
        let ghost v1 = self@;
        match parent {
            Some(p) => {
                self.parents.insert(child, p);
                match self.children.remove(&p) {
                    Some(list) => {
                        let mut list = list;
                        if !vec_contains(&list, child) {
                            list.push(child);
                            self.children.insert(p, list);
                            assert(self@.children =~= v1.children.insert(
                                p,
                                v1.children[p].push(child),
                            ));
                        } else {
                            self.children.insert(p, list);
                            assert(self@.children =~= v1.children);
                        }
                    },
                    None => {
                        let mut list: Vec<u64> = Vec::new();
                        list.push(child);
                        self.children.insert(p, list);
                        assert(self@.children =~= v1.children.insert(p, seq![child]));
                    },
                }
            },
            None => {
                self.parents.remove(&child);
                assert(self@.children =~= v1.children);
            },
        }
        proof {
            lemma_set_parent_wf(v0, child, parent);
            assert(self@ =~= v0.set_parent(child, parent));
            if parent is Some {
                assert(self@.parents[child] == parent->0);
            } else {
                assert(!self@.parents.contains_key(child));
            }
        }
        true
    }
}

/// The entities a walk descends into: all (`None`) or those of the set.
pub open spec fn expand_set(expand: Option<&HashSet<u64>>) -> Set<u64> {
    match expand {
        Some(s) => s@,
        None => Set::full(),
    }
}

/// Whether a walk descends into `x`.
fn expands(expand: Option<&HashSet<u64>>, x: u64) -> (r: bool)
    ensures
        r == expand_set(expand).contains(x),
{
    match expand {
        Some(s) => s.contains(&x),
        None => true,
    }
}

/// Whether `list` holds `x`.
fn vec_contains(list: &Vec<u64>, x: u64) -> (r: bool)
    ensures
        r == list@.contains(x),
{
    let mut i: usize = 0;
    while i < list.len()
        invariant
            i <= list.len(),
            forall|j: int| 0 <= j < i ==> list@[j] != x,
        decreases list.len() - i,
    {
        if list[i] == x {
            return true;
        }
        i = i + 1;
    }
    false
}

/// Deleting a subtree changes no child list outside it but to take `root`
/// out: every entity that stays keeps its children in their old order, with
/// just `root`'s entry taken out where it was one of them (so `root`'s
/// siblings keep their order).
pub proof fn law_remove_subtree_keeps_order(v: HierarchyView, root: u64, q: u64)
    requires
        v.wf(),
        !v.subtree(root).contains(q),
    ensures
        !v.kids(q).contains(root) ==> v.remove_subtree(root).kids(q) == v.kids(q),
        forall|k: int|
            0 <= k < v.kids(q).len() && v.kids(q)[k] == root ==> v.remove_subtree(root).kids(q)
                == v.kids(q).remove(k),
{
    let w = v.remove_subtree(root);
    let gone = v.subtree(root).to_set();
    assert(!gone.contains(q));
    let at_parent = v.parents.contains_key(root) && v.children.contains_key(v.parents[root])
        && v.parents[root] == q;
    if !at_parent {
        assert(!v.kids(q).contains(root)) by {
            if v.kids(q).contains(root) {
                let i = choose|i: int| 0 <= i < v.kids(q).len() && v.kids(q)[i] == root;
                assert(v.children[q][i] == root);
            }
        }
        assert(w.kids(q) =~= v.kids(q));
    } else {
        assert(w.kids(q) =~= without(v.children[q], root));
        assert forall|k: int|
            0 <= k < v.kids(q).len() && v.kids(q)[k] == root implies w.kids(q) == v.kids(
                q,
            ).remove(k) by {
            lemma_without_at(v.children[q], k);
        }
    }
}

/// Deleting a subtree unlinks exactly its entities: an entity keeps its
/// parent link, with the same parent, and a parent keeps its child list
/// exactly when it lies outside the subtree.
pub proof fn law_remove_subtree_unlinks_exactly(v: HierarchyView, root: u64)
    ensures
        forall|x: u64|
            #[trigger] v.remove_subtree(root).parents.contains_key(x) <==> (v.parents.contains_key(x)
                && !v.subtree(root).contains(x)),
        forall|x: u64|
            #[trigger] v.remove_subtree(root).parents.contains_key(x) ==> v.remove_subtree(
                root,
            ).parents[x] == v.parents[x],
        forall|q: u64|
            #[trigger] v.remove_subtree(root).children.contains_key(q) <==> (v.children.contains_key(q)
                && !v.subtree(root).contains(q)),
{
    let w = v.remove_subtree(root);
    let gone = v.subtree(root).to_set();
    assert forall|x: u64| gone.contains(x) <==> #[trigger] v.subtree(root).contains(x) by {}
}

} // verus!
