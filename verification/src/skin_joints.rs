//! Skins of prefabs: joints that are given by name, found in the prefab's own hierarchy, and
//! the inverse bind poses on the device.

use crate::commands::Buffer;
use crate::skinning::BindposeBuffer;
use crate::text::same_text;
use std::collections::HashMap;
use vstd::prelude::*;

verus! {

broadcast use vstd::std_specs::hash::group_hash_axioms;

/// One entity of a hierarchy; entities are numbered.
#[derive(Debug)]
pub struct HierarchyNode {
    pub parent: Option<usize>,
    pub children: Vec<usize>,
    pub name: Option<String>,
}

/// The entities of a world, as far as they stand in one another.
#[derive(Debug)]
pub struct Hierarchy {
    pub nodes: Vec<HierarchyNode>,
}

impl Hierarchy {
    pub open spec fn parent(self, e: usize) -> Option<usize> {
        self.nodes@[e as int].parent
    }

    pub open spec fn children(self, e: usize) -> Seq<usize> {
        self.nodes@[e as int].children@
    }

    /// The number of entities.
    pub open spec fn size(self) -> nat {
        self.nodes@.len()
    }

    /// At most `n` steps lead from `e` to a root.
    pub open spec fn rooted(self, e: usize, n: nat) -> bool
        decreases n,
    {
        match self.parent(e) {
            None => true,
            Some(p) => n > 0 && self.rooted(p, (n - 1) as nat),
        }
    }

    /// Every parent is there, every way up ends, and the children of an entity are, once each,
    /// those whose parent it is.
    pub open spec fn wf(self) -> bool {
        &&& forall|e: usize| #![trigger self.parent(e)]
            e < self.size() && self.parent(e) is Some ==> self.parent(e)->0 < self.size()
        &&& forall|e: usize| e < self.size() ==> #[trigger] self.rooted(e, self.size())
        &&& forall|e: usize| e < self.size() ==> (#[trigger] self.children(e)).no_duplicates()
        &&& forall|e: usize, i: int|
            #![trigger self.children(e)[i]]
            e < self.size() && 0 <= i < self.children(e).len() ==> self.children(e)[i]
                < self.size() && self.parent(self.children(e)[i]) == Some(e)
    }

    /// The root over `e`, at most `n` steps up.
    pub open spec fn root(self, e: usize, n: nat) -> usize
        decreases n,
    {
        match self.parent(e) {
            None => e,
            Some(p) => if n > 0 {
                self.root(p, (n - 1) as nat)
            } else {
                e
            },
        }
    }

    /// The next `n` entities that are visited: always the one put on the pile last, whose
    /// children then go on the pile, in order.
    pub open spec fn visits(self, pile: Seq<usize>, n: nat) -> Seq<usize>
        decreases n,
    {
        if n == 0 || pile.len() == 0 {
            Seq::empty()
        } else {
            seq![pile.last()] + self.visits(
                pile.drop_last() + self.children(pile.last()),
                (n - 1) as nat,
            )
        }
    }

    /// The entities under `root`, itself among them, in the order in which they are visited.
    pub open spec fn order(self, root: usize) -> Seq<usize> {
        self.visits(seq![root], self.size())
    }

    pub open spec fn is_named(self, e: usize, name: Seq<char>) -> bool {
        self.nodes@[e as int].name is Some && self.nodes@[e as int].name->0@ == name
    }

    /// The first of these entities with this name.
    pub open spec fn find(self, order: Seq<usize>, name: Seq<char>) -> Option<usize>
        decreases order.len(),
    {
        if order.len() == 0 {
            None
        } else if self.is_named(order[0], name) {
            Some(order[0])
        } else {
            self.find(order.drop_first(), name)
        }
    }

    /// `e` and what stands over it, up to what stands right under `stop`, in at most `n` steps.
    pub open spec fn chain(self, e: usize, stop: Option<usize>, n: nat) -> Seq<usize>
        decreases n,
    {
        match self.parent(e) {
            None => seq![e],
            Some(p) => if Some(p) == stop || n == 0 {
                seq![e]
            } else {
                seq![e] + self.chain(p, stop, (n - 1) as nat)
            },
        }
    }
}

/// A way up that ends within `n` steps ends within more.
proof fn lemma_rooted_more(h: Hierarchy, e: usize, n: nat, more: nat)
    requires
        h.rooted(e, n),
        n <= more,
    ensures
        h.rooted(e, more),
        h.root(e, more) == h.root(e, n),
    decreases n,
{
    match h.parent(e) {
        None => {},
        Some(p) => {
            lemma_rooted_more(h, p, (n - 1) as nat, (more - 1) as nat);
        },
    }
}

proof fn lemma_root_is_top(h: Hierarchy, e: usize, n: nat)
    requires
        h.wf(),
        e < h.size(),
        h.rooted(e, n),
    ensures
        h.root(e, n) < h.size(),
        h.parent(h.root(e, n)) is None,
    decreases n,
{
    match h.parent(e) {
        None => {},
        Some(p) => {
            lemma_root_is_top(h, p, (n - 1) as nat);
        },
    }
}

/// Different small numbers are few.
proof fn lemma_few(s: Seq<usize>, n: nat)
    requires
        s.no_duplicates(),
        forall|i: int| 0 <= i < s.len() ==> #[trigger] s[i] < n,
    ensures
        s.len() <= n,
    decreases n,
{
    if s.len() > 0 {
        assert(s[0] < n);
        let top = (n - 1) as usize;
        if s.contains(top) {
            let k = choose|k: int| 0 <= k < s.len() && s[k] == top;
            let rest = s.remove(k);
            assert forall|i: int| 0 <= i < rest.len() implies #[trigger] rest[i] < n - 1 by {
                if i < k {
                    assert(rest[i] == s[i]);
                } else {
                    assert(rest[i] == s[i + 1]);
                }
            }
            assert(rest.no_duplicates()) by {
                assert forall|i: int, j: int|
                    0 <= i < rest.len() && 0 <= j < rest.len() && i != j implies rest[i]
                    != rest[j] by {
                    let a = if i < k {
                        i
                    } else {
                        i + 1
                    };
                    let b = if j < k {
                        j
                    } else {
                        j + 1
                    };
                    assert(rest[i] == s[a] && rest[j] == s[b]);
                }
            }
            lemma_few(rest, (n - 1) as nat);
        } else {
            assert forall|i: int| 0 <= i < s.len() implies #[trigger] s[i] < n - 1 by {
                assert(s.contains(s[i]));
            }
            lemma_few(s, (n - 1) as nat);
        }
    }
}

/// Half way through the visits: what was visited and what is on the pile are all different,
/// and each but the root is a child of something visited.
pub open spec fn half_way(h: Hierarchy, root: usize, seen: Seq<usize>, pile: Seq<usize>) -> bool {
    &&& (seen + pile).no_duplicates()
    &&& forall|i: int| 0 <= i < pile.len() ==> #[trigger] pile[i] < h.size()
    &&& forall|i: int| 0 <= i < seen.len() ==> #[trigger] seen[i] < h.size()
    &&& forall|i: int|
        0 <= i < pile.len() ==> (#[trigger] pile[i]) == root || (h.parent(pile[i]) is Some
            && seen.contains(h.parent(pile[i])->0))
    &&& forall|i: int|
        0 <= i < seen.len() ==> (#[trigger] seen[i]) == root || (h.parent(seen[i]) is Some
            && seen.contains(h.parent(seen[i])->0))
}

/// One more visit.
proof fn lemma_visit(h: Hierarchy, root: usize, seen: Seq<usize>, pile: Seq<usize>)
    requires
        h.wf(),
        h.parent(root) is None,
        half_way(h, root, seen, pile),
        pile.len() > 0,
    ensures
        half_way(
            h,
            root,
            seen.push(pile.last()),
            pile.drop_last() + h.children(pile.last()),
        ),
{
    let e = pile.last();
    let kids = h.children(e);
    let seen2 = seen.push(e);
    let pile2 = pile.drop_last() + kids;
    let both = seen + pile;
    let all = seen2 + pile2;
    assert(e < h.size());
    assert(both[seen.len() + pile.len() - 1] == e);
    assert(!seen.contains(e)) by {
        if seen.contains(e) {
            let k = choose|k: int| 0 <= k < seen.len() && seen[k] == e;
            assert(both[k] == e);
        }
    }
    // What was there before stands as it did, but for the visited one.
    assert forall|x: usize| seen.contains(x) implies seen2.contains(x) by {
        let k = choose|k: int| 0 <= k < seen.len() && seen[k] == x;
        assert(seen2[k] == x);
    }
    assert(seen2.contains(e)) by {
        assert(seen2[seen.len() as int] == e);
    }
    let front = seen2 + pile.drop_last();
    assert forall|i: int| 0 <= i < front.len() implies #[trigger] front[i] == (if i < seen.len() {
        both[i]
    } else if i == seen.len() {
        e
    } else {
        both[i - 1]
    }) by {}
    // No child was met before: its parent had not been.
    assert forall|i: int, k: int|
        0 <= i < front.len() && 0 <= k < kids.len() implies #[trigger] front[i]
        != #[trigger] kids[k] by {
        assert(h.children(e)[k] < h.size() && h.parent(h.children(e)[k]) == Some(e));
        if i == seen.len() {
            if front[i] == kids[k] {
                // An entity that is its own parent has no root.
                assert(h.parent(e) == Some(e));
                lemma_no_loop(h, e, h.size());
                assert(h.rooted(e, h.size()));
            }
        } else {
            let x = front[i];
            if i < seen.len() {
                assert(x == seen[i]);
            } else {
                assert(x == pile[i - seen.len() - 1]);
            }
            assert(x == root || (h.parent(x) is Some && seen.contains(h.parent(x)->0)));
        }
    }
    assert(all =~= front + kids);
    assert(all.no_duplicates()) by {
        assert forall|i: int, j: int|
            0 <= i < all.len() && 0 <= j < all.len() && i != j implies all[i] != all[j] by {
            if i < front.len() && j < front.len() {
                assert(all[i] == front[i] && all[j] == front[j]);
                let a: int = if i < seen.len() {
                    i
                } else if i == seen.len() {
                    seen.len() + pile.len() - 1
                } else {
                    i - 1
                };
                let b: int = if j < seen.len() {
                    j
                } else if j == seen.len() {
                    seen.len() + pile.len() - 1
                } else {
                    j - 1
                };
                assert(all[i] == both[a] && all[j] == both[b]);
                assert(a != b);
            } else if i < front.len() {
                assert(all[i] == front[i] && all[j] == kids[j - front.len()]);
            } else if j < front.len() {
                assert(all[j] == front[j] && all[i] == kids[i - front.len()]);
            } else {
                assert(all[j] == kids[j - front.len()] && all[i] == kids[i - front.len()]);
            }
        }
    }
    assert forall|i: int| 0 <= i < pile2.len() implies (#[trigger] pile2[i]) < h.size() && (pile2[i]
        == root || (h.parent(pile2[i]) is Some && seen2.contains(h.parent(pile2[i])->0))) by {
        if i < pile.len() - 1 {
            assert(pile2[i] == pile[i]);
        } else {
            assert(pile2[i] == h.children(e)[i - (pile.len() - 1)]);
        }
    }
    assert forall|i: int| 0 <= i < seen2.len() implies (#[trigger] seen2[i]) < h.size() && (seen2[i]
        == root || (h.parent(seen2[i]) is Some && seen2.contains(h.parent(seen2[i])->0))) by {
        if i < seen.len() {
            assert(seen2[i] == seen[i]);
        } else {
            assert(e == pile[pile.len() - 1]);
        }
    }
}

/// No way up from an entity that is its own parent ends.
proof fn lemma_no_loop(h: Hierarchy, e: usize, n: nat)
    requires
        h.parent(e) == Some(e),
    ensures
        !h.rooted(e, n),
    decreases n,
{
    if n > 0 {
        lemma_no_loop(h, e, (n - 1) as nat);
    }
}

/// While there is something on the pile, fewer than all entities were visited.
proof fn lemma_room(h: Hierarchy, root: usize, seen: Seq<usize>, pile: Seq<usize>)
    requires
        half_way(h, root, seen, pile),
    ensures
        seen.len() + pile.len() <= h.size(),
{
    let both = seen + pile;
    assert forall|i: int| 0 <= i < both.len() implies #[trigger] both[i] < h.size() by {
        if i < seen.len() {
            assert(both[i] == seen[i]);
        } else {
            assert(both[i] == pile[i - seen.len()]);
        }
    }
    lemma_few(both, h.size());
}

proof fn lemma_start(h: Hierarchy, root: usize)
    requires
        root < h.size(),
    ensures
        half_way(h, root, Seq::empty(), seq![root]),
{
    assert(Seq::<usize>::empty() + seq![root] =~= seq![root]);
}

proof fn lemma_visits_more(
    h: Hierarchy,
    root: usize,
    seen: Seq<usize>,
    pile: Seq<usize>,
    n: nat,
    more: nat,
)
    requires
        h.wf(),
        h.parent(root) is None,
        half_way(h, root, seen, pile),
        seen.len() + n >= h.size(),
        n <= more,
    ensures
        h.visits(pile, more) == h.visits(pile, n),
        (seen + h.visits(pile, n)).no_duplicates(),
    decreases n,
{
    lemma_room(h, root, seen, pile);
    if pile.len() > 0 {
        assert(n > 0);
        let e = pile.last();
        lemma_visit(h, root, seen, pile);
        let next = pile.drop_last() + h.children(e);
        lemma_visits_more(h, root, seen.push(e), next, (n - 1) as nat, (more - 1) as nat);
        assert(seen + h.visits(pile, n) =~= seen.push(e) + h.visits(next, (n - 1) as nat));
    } else {
        assert(seen + h.visits(pile, n) =~= seen + pile);
    }
}

/// The visits under a root end, and meet no entity twice: however many are allowed, they are
/// the same.
pub proof fn lemma_order(h: Hierarchy, root: usize, more: nat)
    requires
        h.wf(),
        root < h.size(),
        h.parent(root) is None,
        more >= h.size(),
    ensures
        h.visits(seq![root], more) == h.order(root),
        h.order(root).no_duplicates(),
{
    lemma_start(h, root);
    lemma_visits_more(h, root, Seq::empty(), seq![root], h.size(), more);
    assert(Seq::<usize>::empty() + h.order(root) =~= h.order(root));
}

proof fn lemma_find(h: Hierarchy, order: Seq<usize>, name: Seq<char>, k: int)
    requires
        0 <= k <= order.len(),
        forall|i: int| 0 <= i < k ==> !h.is_named(#[trigger] order[i], name),
    ensures
        k < order.len() && h.is_named(order[k], name) ==> h.find(order, name) == Some(order[k]),
        k == order.len() ==> h.find(order, name) is None,
    decreases k,
{
    if k > 0 {
        assert(!h.is_named(order[0], name));
        let rest = order.drop_first();
        assert forall|i: int| 0 <= i < k - 1 implies !h.is_named(#[trigger] rest[i], name) by {
            assert(rest[i] == order[i + 1]);
        }
        lemma_find(h, rest, name, k - 1);
    }
}

/// The entities with these names, one for each; nothing while one of them is not there.
pub open spec fn found(h: Hierarchy, order: Seq<usize>, names: Seq<String>) -> Option<Seq<usize>> {
    if forall|i: int| 0 <= i < names.len() ==> h.find(order, #[trigger] names[i]@) is Some {
        Some(names.map(|_i: int, name: String| h.find(order, name@)->0))
    } else {
        None
    }
}

impl Hierarchy {
    fn root_of(&self, e: usize) -> (r: usize)
        requires
            self.wf(),
            e < self.size(),
        ensures
            r == self.root(e, self.size()),
            r < self.size(),
            self.parent(r) is None,
    {
        let mut at: usize = e;
        let ghost mut left: nat = self.size();
        proof {
            assert(self.rooted(e, self.size()));
            lemma_root_is_top(*self, e, self.size());
        }
        loop
            invariant
                self.wf(),
                at < self.size(),
                self.rooted(at, left),
                self.root(at, left) == self.root(e, self.size()),
            decreases left,
        {
            let up: Option<usize> = self.nodes[at].parent;
            assert(self.parent(at) == up);
            match up {
                Some(p) => {
                    at = p;
                    proof {
                        left = (left - 1) as nat;
                    }
                },
                None => {
                    return at;
                },
            }
        }
    }

    fn order_under(&self, root: usize) -> (r: Vec<usize>)
        requires
            self.wf(),
            root < self.size(),
            self.parent(root) is None,
        ensures
            r@ == self.order(root),
            forall|i: int| 0 <= i < r@.len() ==> #[trigger] r@[i] < self.size(),
    {
        let mut seen: Vec<usize> = Vec::new();
        let mut pile: Vec<usize> = vec![root];
        proof {
            assert(pile@ =~= seq![root]);
            lemma_start(*self, root);
            lemma_room(*self, root, seen@, pile@);
            assert(seen@ + self.visits(pile@, self.size()) =~= self.order(root));
        }
        while pile.len() > 0
            invariant
                self.wf(),
                self.parent(root) is None,
                half_way(*self, root, seen@, pile@),
                seen@.len() + pile@.len() <= self.size(),
                seen@ + self.visits(pile@, (self.size() - seen@.len()) as nat) == self.order(root),
            decreases self.size() - seen@.len(),
        {
            let ghost seen0 = seen@;
            let ghost pile0 = pile@;
            let ghost left = (self.size() - seen@.len()) as nat;
            proof {
                lemma_visit(*self, root, seen@, pile@);
            }
            let e: usize = pile[pile.len() - 1];
            pile.pop();
            assert(e == pile0.last());
            assert(e < self.size()) by {
                assert(pile0[pile0.len() - 1] == e);
            }
            seen.push(e);
            let mut k: usize = 0;
            let ghost kids = self.children(e);
            assert(pile@ =~= pile0.drop_last() + kids.take(0));
            while k < self.nodes[e as usize].children.len()
                invariant
                    e < self.size(),
                    kids == self.children(e),
                    k <= kids.len(),
                    pile@ == pile0.drop_last() + kids.take(k as int),
                decreases kids.len() - k,
            {
                pile.push(self.nodes[e].children[k]);
                k = k + 1;
                assert(pile@ =~= pile0.drop_last() + kids.take(k as int));
            }
            proof {
                assert(kids.take(k as int) =~= kids);
                assert(seen@ + self.visits(pile@, (left - 1) as nat) =~= seen0 + self.visits(
                    pile0,
                    left,
                ));
                lemma_room(*self, root, seen@, pile@);
            }
        }
        assert(seen@ =~= self.order(root));
        seen
    }

    fn find_named(&self, order: &Vec<usize>, name: &String) -> (r: Option<usize>)
        requires
            forall|i: int| 0 <= i < order@.len() ==> #[trigger] order@[i] < self.size(),
        ensures
            r == self.find(order@, name@),
            r is Some ==> r->0 < self.size(),
    {
        let mut k: usize = 0;
        while k < order.len()
            invariant
                k <= order@.len(),
                forall|i: int| 0 <= i < order@.len() ==> #[trigger] order@[i] < self.size(),
                forall|i: int| 0 <= i < k ==> !self.is_named(#[trigger] order@[i], name@),
            decreases order@.len() - k,
        {
            let e: usize = order[k];
            if let Some(own) = &self.nodes[e].name {
                if same_text(own.as_str(), name.as_str()) {
                    proof {
                        lemma_find(*self, order@, name@, k as int);
                    }
                    return Some(e);
                }
            }
            k = k + 1;
        }
        proof {
            lemma_find(*self, order@, name@, k as int);
        }
        None
    }

    /// `e` and what stands over it, up to what stands right under `stop`.
    pub fn chain_of(&self, e: usize, stop: Option<usize>) -> (r: Vec<usize>)
        requires
            self.wf(),
            e < self.size(),
        ensures
            r@ == self.chain(e, stop, self.size()),
    {
        let mut r: Vec<usize> = vec![e];
        let mut at: usize = e;
        let ghost mut left: nat = self.size();
        proof {
            assert(self.rooted(e, self.size()));
            assert(r@.drop_last() + self.chain(at, stop, left) =~= self.chain(
                e,
                stop,
                self.size(),
            ));
        }
        loop
            invariant
                self.wf(),
                at < self.size(),
                r@.len() > 0,
                r@.last() == at,
                self.rooted(at, left),
                r@.drop_last() + self.chain(at, stop, left) == self.chain(e, stop, self.size()),
            decreases left,
        {
            let up: Option<usize> = self.nodes[at].parent;
            assert(self.parent(at) == up);
            match up {
                Some(p) => {
                    if stop == up {
                        assert(r@ =~= r@.drop_last() + seq![at]);
                        return r;
                    }
                    let ghost before = r@;
                    let ghost own = at;
                    at = p;
                    r.push(at);
                    proof {
                        left = (left - 1) as nat;
                        assert(r@.drop_last() + self.chain(at, stop, left)
                            =~= before.drop_last() + (seq![own] + self.chain(at, stop, left)));
                    }
                },
                None => {
                    assert(r@ =~= r@.drop_last() + seq![at]);
                    return r;
                },
            }
        }
    }
}

impl Hierarchy {
    /// Whether every parent is there.
    fn has_parents(&self) -> (r: bool)
        ensures
            r == (forall|e: usize|
                #![trigger self.parent(e)]
                e < self.size() && self.parent(e) is Some ==> self.parent(e)->0 < self.size()),
    {
        let mut e: usize = 0;
        while e < self.nodes.len()
            invariant
                e <= self.size(),
                forall|d: usize|
                    #![trigger self.parent(d)]
                    d < e && self.parent(d) is Some ==> self.parent(d)->0 < self.size(),
            decreases self.size() - e,
        {
            if let Some(p) = self.nodes[e].parent {
                if p >= self.nodes.len() {
                    assert(self.parent(e) == Some(p));
                    return false;
                }
            }
            e = e + 1;
        }
        true
    }

    /// Whether the way up from an entity ends.
    fn is_rooted(&self, e: usize) -> (r: bool)
        requires
            e < self.size(),
            forall|e: usize|
                #![trigger self.parent(e)]
                e < self.size() && self.parent(e) is Some ==> self.parent(e)->0 < self.size(),
        ensures
            r == self.rooted(e, self.size()),
    {
        let mut at: usize = e;
        let mut left: usize = self.nodes.len();
        while left > 0
            invariant
                at < self.size(),
                self.rooted(e, self.size()) == self.rooted(at, left as nat),
                forall|e: usize|
                    #![trigger self.parent(e)]
                    e < self.size() && self.parent(e) is Some ==> self.parent(e)->0 < self.size(),
            decreases left,
        {
            match self.nodes[at].parent {
                Some(p) => {
                    assert(self.parent(at) == Some(p));
                    at = p;
                },
                None => {
                    assert(self.parent(at) is None);
                    return true;
                },
            }
            left = left - 1;
        }
        assert(self.parent(at) == self.nodes@[at as int].parent);
        self.nodes[at].parent.is_none()
    }

    /// Whether the children of an entity are, once each, entities whose parent it is.
    fn has_children(&self, e: usize) -> (r: bool)
        requires
            e < self.size(),
        ensures
            r == (self.children(e).no_duplicates() && forall|i: int|
                #![trigger self.children(e)[i]]
                0 <= i < self.children(e).len() ==> self.children(e)[i] < self.size()
                    && self.parent(self.children(e)[i]) == Some(e)),
    {
        let children: &Vec<usize> = &self.nodes[e].children;
        let ghost all = self.children(e);
        assert(children@ == all);
        let mut i: usize = 0;
        while i < children.len()
            invariant
                e < self.size(),
                i <= children@.len(),
                children@ == all,
                all == self.children(e),
                forall|j: int|
                    #![trigger all[j]]
                    0 <= j < i ==> all[j] < self.size() && self.parent(all[j]) == Some(e),
                forall|j: int, k: int| 0 <= k < j < i ==> all[j] != all[k],
            decreases children@.len() - i,
        {
            let c: usize = children[i];
            assert(all[i as int] == c);
            if c >= self.nodes.len() {
                return false;
            }
            let own: bool = match self.nodes[c].parent {
                Some(p) => p == e,
                None => false,
            };
            if !own {
                assert(self.parent(all[i as int]) != Some(e));
                return false;
            }
            let mut k: usize = 0;
            while k < i
                invariant
                    k <= i < children@.len(),
                    c == all[i as int],
                    children@ == all,
                    all == self.children(e),
                    forall|j: int| 0 <= j < k ==> all[j] != c,
                decreases i - k,
            {
                if children[k] == c {
                    assert(all[k as int] == all[i as int]);
                    assert(!all.no_duplicates());
                    return false;
                }
                k = k + 1;
            }
            i = i + 1;
        }
        assert(all.no_duplicates());
        true
    }

    /// Whether every parent is there, every way up ends, and the children of an entity are, once
    /// each, those whose parent it is.
    pub fn is_wf(&self) -> (r: bool)
        ensures
            r == self.wf(),
    {
        if !self.has_parents() {
            return false;
        }
        let mut e: usize = 0;
        while e < self.nodes.len()
            invariant
                e <= self.size(),
                forall|e: usize|
                    #![trigger self.parent(e)]
                    e < self.size() && self.parent(e) is Some ==> self.parent(e)->0 < self.size(),
                forall|d: usize| d < e ==> #[trigger] self.rooted(d, self.size()),
                forall|d: usize| d < e ==> (#[trigger] self.children(d)).no_duplicates(),
                forall|d: usize, i: int|
                    #![trigger self.children(d)[i]]
                    d < e && 0 <= i < self.children(d).len() ==> self.children(d)[i] < self.size()
                        && self.parent(self.children(d)[i]) == Some(d),
            decreases self.size() - e,
        {
            if !self.is_rooted(e) {
                return false;
            }
            if !self.has_children(e) {
                return false;
            }
            e = e + 1;
        }
        true
    }
}

/// What became of a skin whose joints are given by name.
#[derive(Debug)]
pub enum JointsFound {
    /// There is no joint to find.
    Nothing,
    /// A joint is not there yet.
    NotYet,
    /// The joints, and for each the entities whose transforms, multiplied from the last to the
    /// first, are its bind pose.
    All { joints: Vec<usize>, chains: Vec<Vec<usize>> },
}

/// The armature: what the first joint stands in.
pub open spec fn armature(h: Hierarchy, joints: Seq<usize>) -> Option<usize> {
    h.parent(joints[0])
}

/// Finds the joints of a skin by their names, anywhere under the root of the skin's entity;
/// of entities with one name, the first that is visited. The bind poses are those relative to
/// the armature.
pub fn resolve_skin_joints(h: &Hierarchy, entity: usize, names: &Vec<String>) -> (r: JointsFound)
    requires
        h.wf(),
        entity < h.size(),
    ensures
        ({
            let order = h.order(h.root(entity, h.size()));
            match r {
                JointsFound::Nothing => names@.len() == 0,
                JointsFound::NotYet => names@.len() > 0 && found(*h, order, names@) is None,
                JointsFound::All { joints, chains } => {
                    &&& names@.len() > 0
                    &&& found(*h, order, names@) == Some(joints@)
                    &&& chains@.len() == joints@.len()
                    &&& forall|i: int|
                        0 <= i < joints@.len() ==> (#[trigger] chains@[i])@ == h.chain(
                            joints@[i],
                            armature(*h, joints@),
                            h.size(),
                        )
                },
            }
        }),
{
    if names.len() == 0 {
        return JointsFound::Nothing;
    }
    let root: usize = h.root_of(entity);
    let order: Vec<usize> = h.order_under(root);
    let mut joints: Vec<usize> = Vec::new();
    let mut k: usize = 0;
    while k < names.len()
        invariant
            k <= names@.len(),
            joints@.len() == k,
            order@ == h.order(h.root(entity, h.size())),
            forall|i: int| 0 <= i < order@.len() ==> #[trigger] order@[i] < h.size(),
            forall|i: int| 0 <= i < k ==> h.find(order@, #[trigger] names@[i]@) is Some,
            forall|i: int|
                0 <= i < k ==> (#[trigger] joints@[i]) == h.find(order@, names@[i]@)->0
                    && joints@[i] < h.size(),
        decreases names@.len() - k,
    {
        match h.find_named(&order, &names[k]) {
            Some(e) => {
                joints.push(e);
            },
            None => {
                assert(h.find(order@, names@[k as int]@) is None);
                return JointsFound::NotYet;
            },
        }
        k = k + 1;
    }
    assert(joints@ =~= found(*h, order@, names@)->0);
    assert(joints@[0] < h.size());
    let stop: Option<usize> = h.nodes[joints[0]].parent;
    let mut chains: Vec<Vec<usize>> = Vec::new();
    let mut i: usize = 0;
    while i < joints.len()
        invariant
            h.wf(),
            i <= joints@.len(),
            chains@.len() == i,
            forall|j: int| 0 <= j < joints@.len() ==> #[trigger] joints@[j] < h.size(),
            forall|j: int|
                0 <= j < i ==> (#[trigger] chains@[j])@ == h.chain(joints@[j], stop, h.size()),
        decreases joints@.len() - i,
    {
        let chain: Vec<usize> = h.chain_of(joints[i], stop);
        chains.push(chain);
        i = i + 1;
    }
    JointsFound::All { joints, chains }
}

// ---- inverse bind poses on the device
// ------------------------------------------------------------

/// Device copies of every loaded set of inverse bind poses, by asset.
#[derive(Debug)]
pub struct BindposeBuffers {
    pub buffers: HashMap<u64, (Buffer, u32)>,
}

/// What happened to a set of inverse bind poses.
#[derive(Clone, Copy, Debug, PartialEq, Eq, Structural)]
pub enum BindposeEvent {
    Added,
    Modified,
    LoadedWithDependencies,
    Removed,
    Unused,
}

impl BindposeEvent {
    /// The set is there, or there anew.
    pub open spec fn is_here(self) -> bool {
        self == BindposeEvent::Added || self == BindposeEvent::Modified || self
            == BindposeEvent::LoadedWithDependencies
    }
}

/// The number of floats to upload for a set of so many joints: 16 each; nothing where the set
/// is gone again or empty, or went.
pub fn upload_len(event: BindposeEvent, joints: Option<u32>) -> (r: Option<u64>)
    ensures
        r == (if event.is_here() && joints is Some && joints->0 > 0 {
            Some((joints->0 * 16) as u64)
        } else {
            None
        }),
{
    match event {
        BindposeEvent::Added
        | BindposeEvent::Modified
        | BindposeEvent::LoadedWithDependencies => match joints {
            Some(n) => if n > 0 {
                Some(n as u64 * 16)
            } else {
                None
            },
            None => None,
        },
        BindposeEvent::Removed | BindposeEvent::Unused => None,
    }
}

impl BindposeBuffers {
    pub open spec fn view(&self) -> Map<u64, (Buffer, u32)> {
        self.buffers@
    }

    pub fn new() -> (r: Self)
        ensures
            r@ == Map::<u64, (Buffer, u32)>::empty(),
    {
        BindposeBuffers { buffers: HashMap::new() }
    }

    /// Takes an uploaded set in; gives the buffer that it replaces, which is to be destroyed.
    pub fn install(&mut self, asset: u64, buffer: Buffer, joints: u32) -> (r: Option<u64>)
        ensures
            final(self)@ == old(self)@.insert(asset, (buffer, joints)),
            r == (if old(self)@.contains_key(asset) {
                Some(old(self)@[asset].0.handle)
            } else {
                None
            }),
    {
        match self.buffers.insert(asset, (buffer, joints)) {
            Some((old_buffer, _)) => Some(old_buffer.handle),
            None => None,
        }
    }

    /// Gives up a set that went; gives its buffer, which is to be destroyed.
    pub fn take(&mut self, asset: u64) -> (r: Option<u64>)
        ensures
            final(self)@ == old(self)@.remove(asset),
            r == (if old(self)@.contains_key(asset) {
                Some(old(self)@[asset].0.handle)
            } else {
                None
            }),
    {
        match self.buffers.remove(&asset) {
            Some((old_buffer, _)) => Some(old_buffer.handle),
            None => {
                assert(old(self)@ =~= old(self)@.remove(asset));
                None
            },
        }
    }

    /// A set, as a skin is made with it.
    pub fn get(&self, asset: u64) -> (r: Option<BindposeBuffer>)
        ensures
            r == (if self@.contains_key(asset) {
                Some(
                    BindposeBuffer {
                        address: self@[asset].0.address,
                        count: self@[asset].1,
                    },
                )
            } else {
                None
            }),
    {
        match self.buffers.get(&asset) {
            Some(held) => Some(BindposeBuffer { address: held.0.address, count: held.1 }),
            None => None,
        }
    }
}

/// A set that was taken in is the one found, until it is given up.
pub proof fn lemma_bindposes(held: Map<u64, (Buffer, u32)>, asset: u64, set: (Buffer, u32))
    ensures
        held.insert(asset, set)[asset] == set,
        !held.insert(asset, set).remove(asset).contains_key(asset),
{
}

proof fn lemma_first_named(h: Hierarchy, order: Seq<usize>, name: Seq<char>)
    ensures
        h.find(order, name) is Some <==> exists|i: int|
            0 <= i < order.len() && h.is_named(#[trigger] order[i], name),
        h.find(order, name) matches Some(e) ==> exists|i: int|
            0 <= i < order.len() && #[trigger] order[i] == e && h.is_named(e, name)
                && forall|j: int|
                0 <= j < i ==> !h.is_named(#[trigger] order[j], name),
    decreases order.len(),
{
    if order.len() > 0 {
        let rest = order.drop_first();
        lemma_first_named(h, rest, name);
        assert(forall|i: int| 0 <= i < rest.len() ==> #[trigger] rest[i] == order[i + 1]);
        if h.is_named(order[0], name) {
        } else {
            if exists|i: int| 0 <= i < order.len() && h.is_named(#[trigger] order[i], name) {
                let i = choose|i: int|
                    0 <= i < order.len() && h.is_named(#[trigger] order[i], name);
                assert(rest[i - 1] == order[i]);
            }
            if let Some(e) = h.find(order, name) {
                let i = choose|i: int|
                    0 <= i < rest.len() && #[trigger] rest[i] == e && h.is_named(e, name)
                        && forall|j: int| 0 <= j < i ==> !h.is_named(#[trigger] rest[j], name);
                assert(order[i + 1] == e);
                assert forall|j: int| 0 <= j < i + 1 implies !h.is_named(
                    #[trigger] order[j],
                    name,
                ) by {
                    if j > 0 {
                        assert(rest[j - 1] == order[j]);
                    }
                }
            }
        }
    }
}

/// Joints are found exactly where every name is borne by one of the entities that are looked
/// through, and joint `i` is the first of those that bear name `i`.
pub proof fn lemma_joints_named(h: Hierarchy, order: Seq<usize>, names: Seq<String>)
    ensures
        found(h, order, names) is Some <==> forall|i: int|
            0 <= i < names.len() ==> exists|j: int|
                0 <= j < order.len() && h.is_named(#[trigger] order[j], (#[trigger] names[i])@),
        found(h, order, names) matches Some(joints) ==> joints.len() == names.len() && forall|
            i: int,
        |
            0 <= i < names.len() ==> h.is_named(#[trigger] joints[i], names[i]@) && order.contains(
                joints[i],
            ),
{
    assert forall|i: int| 0 <= i < names.len() implies (h.find(order, #[trigger] names[i]@) is Some
        <==> exists|j: int|
        0 <= j < order.len() && h.is_named(#[trigger] order[j], names[i]@)) by {
        lemma_first_named(h, order, names[i]@);
    }
    if let Some(joints) = found(h, order, names) {
        assert forall|i: int| 0 <= i < names.len() implies h.is_named(
            #[trigger] joints[i],
            names[i]@,
        ) && order.contains(joints[i]) by {
            lemma_first_named(h, order, names[i]@);
            assert(h.find(order, names[i]@) is Some);
        }
    }
}

/// A chain starts with its entity and climbs: each link's parent is the next, none of the links
/// but the last stands right under `stop`, and the last one does, or has no parent, unless the
/// steps ran out.
pub proof fn lemma_chain_climbs(h: Hierarchy, e: usize, stop: Option<usize>, n: nat)
    ensures
        ({
            let c = h.chain(e, stop, n);
            &&& 0 < c.len() <= n + 1
            &&& c[0] == e
            &&& forall|i: int|
                0 <= i < c.len() - 1 ==> h.parent(#[trigger] c[i]) == Some(c[i + 1]) && h.parent(
                    c[i],
                ) != stop
            &&& c.len() <= n ==> h.parent(c.last()) is None || h.parent(c.last()) == stop
        }),
    decreases n,
{
    match h.parent(e) {
        None => {},
        Some(p) => {
            if Some(p) != stop && n > 0 {
                lemma_chain_climbs(h, p, stop, (n - 1) as nat);
                let rest = h.chain(p, stop, (n - 1) as nat);
                let c = h.chain(e, stop, n);
                assert(c =~= seq![e] + rest);
                assert forall|i: int| 0 <= i < c.len() - 1 implies h.parent(#[trigger] c[i])
                    == Some(
                    c[i + 1],
                ) && h.parent(c[i]) != stop by {
                    if i > 0 {
                        assert(c[i] == rest[i - 1]);
                    }
                }
            }
        },
    }
}

} // verus!
