//! What the bounded walk of `Interfaces::convert_impls` says of the chains
//! of parents themselves: the bound never changes a result that it admits,
//! and a walk that exceeds it goes round a cycle forever.
use vstd::prelude::*;
use vstd::relations::injective_on;
use vstd::set_lib::{lemma_int_range, lemma_len_subset, lemma_map_size, set_int_range};
use super::interface::Interface;
use super::interfaces::{
    declared_parent, has_entry, lemma_declared_parent, prepend, single_ident, walk, walks, ConvertImpl,
    with_parent, Interfaces,
};

verus! {

/// The name `c` has a parent, and that parent is named by a single
/// identifier, so that the walk goes on from it.
pub open spec fn continues<X>(inner: Seq<Interface<X>>, c: Seq<char>) -> bool {
    match declared_parent(inner, c) {
        Some(j) => match inner[j].parent {
            Some(p) => single_ident(p) is Some,
            None => false,
        },
        None => false,
    }
}

/// The name the walk goes on with after `c` (meaningful where `continues`).
pub open spec fn next_name<X>(inner: Seq<Interface<X>>, c: Seq<char>) -> Seq<char> {
    match declared_parent(inner, c) {
        Some(j) => match inner[j].parent {
            Some(p) => match single_ident(p) {
                Some(x) => x,
                None => c,
            },
            None => c,
        },
        None => c,
    }
}

/// The name reached after `i` steps from `c`.
pub open spec fn chain_name<X>(inner: Seq<Interface<X>>, c: Seq<char>, i: nat) -> Seq<char>
    decreases i,
{
    if i == 0 {
        c
    } else {
        next_name(inner, chain_name(inner, c, (i - 1) as nat))
    }
}

proof fn lemma_chain_add<X>(inner: Seq<Interface<X>>, c: Seq<char>, s: nat, t: nat)
    ensures
        chain_name(inner, c, s + t) == chain_name(inner, chain_name(inner, c, s), t),
    decreases t,
{
    if t > 0 {
        lemma_chain_add(inner, c, s, (t - 1) as nat);
        assert((s + t - 1) as nat == s + (t - 1) as nat);
    }
}

/// A walk with bound `f` runs out exactly when each of the first `f` names
/// goes on and the name reached after `f` steps still has a parent.
proof fn lemma_walk_none<X>(inner: Seq<Interface<X>>, from: usize, c: Seq<char>, f: nat)
    ensures
        walk(inner, from, c, f) is None <==> (
            (forall|i: nat| i < f ==> continues(inner, #[trigger] chain_name(inner, c, i)))
            && declared_parent(inner, chain_name(inner, c, f)) is Some),
    decreases f,
{
    lemma_declared_parent(inner, c);
    assert(chain_name(inner, c, 0) == c);
    if f > 0 && continues(inner, c) {
        let next = next_name(inner, c);
        lemma_walk_none(inner, from, next, (f - 1) as nat);
        assert forall|i: nat| #[trigger] chain_name(inner, next, i) == chain_name(inner, c, i + 1) by {
            lemma_chain_add(inner, c, 1, i);
            assert(chain_name(inner, c, 1) == next);
        }
        if walk(inner, from, c, f) is None {
            assert forall|i: nat| i < f implies continues(inner, #[trigger] chain_name(inner, c, i)) by {
                if i > 0 {
                    assert(chain_name(inner, next, (i - 1) as nat) == chain_name(inner, c, i));
                }
            }
            assert(chain_name(inner, next, (f - 1) as nat) == chain_name(inner, c, f));
        }
        if (forall|i: nat| i < f ==> continues(inner, #[trigger] chain_name(inner, c, i)))
            && declared_parent(inner, chain_name(inner, c, f)) is Some {
            assert forall|i: nat| i < (f - 1) as nat implies continues(inner, #[trigger] chain_name(inner, next, i)) by {
                assert(chain_name(inner, next, i) == chain_name(inner, c, i + 1));
            }
            assert(chain_name(inner, next, (f - 1) as nat) == chain_name(inner, c, f));
        }
    } else if f > 0 {
        assert(!continues(inner, chain_name(inner, c, 0)));
    }
}

/// The conversions of a chain that ends hold one conversion per step of the
/// chain, in order: conversion `i` is from the interface at `from` into the
/// parent declared for the name reached after `i` steps, every step but the
/// last goes on to a further name, and after the last the chain stops (the
/// parent is no single identifier, or the name reached has no parent).
pub proof fn law_walk_steps<X>(inner: Seq<Interface<X>>, from: usize, c: Seq<char>, f: nat)
    requires
        walk(inner, from, c, f) is Some,
    ensures
        ({
            let r = walk(inner, from, c, f)->0;
            &&& forall|i: int| 0 <= i < r.len() ==> declared_parent(inner, #[trigger] chain_name(inner, c, i as nat)) is Some
            &&& forall|i: int| 0 <= i < r.len() ==> #[trigger] r[i] == (ConvertImpl {
                interface: from,
                parent: (declared_parent(inner, chain_name(inner, c, i as nat))->0) as usize,
            })
            &&& forall|i: int| 0 <= i < r.len() - 1 ==> continues(inner, #[trigger] chain_name(inner, c, i as nat))
            &&& r.len() == 0 ==> declared_parent(inner, c) is None
            &&& r.len() > 0 ==> (!continues(inner, chain_name(inner, c, (r.len() - 1) as nat))
                || declared_parent(inner, chain_name(inner, c, r.len() as nat)) is None)
        }),
    decreases f,
{
    lemma_declared_parent(inner, c);
    let r = walk(inner, from, c, f)->0;
    assert(chain_name(inner, c, 0) == c);
    if declared_parent(inner, c) is Some {
        let j = declared_parent(inner, c)->0;
        let head = ConvertImpl { interface: from, parent: j as usize };
        if continues(inner, c) {
            let next = next_name(inner, c);
            assert(chain_name(inner, c, 1) == next);
            law_walk_steps(inner, from, next, (f - 1) as nat);
            let r2 = walk(inner, from, next, (f - 1) as nat)->0;
            assert(r == seq![head] + r2);
            assert forall|i: nat| #[trigger] chain_name(inner, next, i) == chain_name(inner, c, i + 1) by {
                lemma_chain_add(inner, c, 1, i);
            }
            assert forall|i: int| 0 <= i < r.len() implies declared_parent(inner, #[trigger] chain_name(inner, c, i as nat)) is Some by {
                if i > 0 {
                    assert(chain_name(inner, next, (i - 1) as nat) == chain_name(inner, c, i as nat));
                }
            }
            assert forall|i: int| 0 <= i < r.len() implies #[trigger] r[i] == (ConvertImpl {
                interface: from,
                parent: (declared_parent(inner, chain_name(inner, c, i as nat))->0) as usize,
            }) by {
                if i > 0 {
                    assert(r[i] == r2[i - 1]);
                    assert(chain_name(inner, next, (i - 1) as nat) == chain_name(inner, c, i as nat));
                }
            }
            assert forall|i: int| 0 <= i < r.len() - 1 implies continues(inner, #[trigger] chain_name(inner, c, i as nat)) by {
                if i > 0 {
                    assert(chain_name(inner, next, (i - 1) as nat) == chain_name(inner, c, i as nat));
                }
            }
            if r2.len() == 0 {
                assert(declared_parent(inner, chain_name(inner, c, 1)) is None);
            } else {
                assert(chain_name(inner, next, (r2.len() - 1) as nat) == chain_name(inner, c, (r.len() - 1) as nat));
                assert(chain_name(inner, next, r2.len() as nat) == chain_name(inner, c, r.len() as nat));
            }
        } else {
            assert(r == seq![head]);
        }
    }
}

/// A walk that ends within a bound gives the same conversions under any
/// larger bound.
pub proof fn law_walk_bound<X>(inner: Seq<Interface<X>>, from: usize, c: Seq<char>, f: nat, g: nat)
    requires
        f <= g,
        walk(inner, from, c, f) is Some,
    ensures
        walk(inner, from, c, g) == walk(inner, from, c, f),
    decreases f,
{
    lemma_declared_parent(inner, c);
    if f > 0 && continues(inner, c) {
        law_walk_bound(inner, from, next_name(inner, c), (f - 1) as nat, (g - 1) as nat);
    }
}

/// The conversions of all entries, once listed within a bound, are the same
/// under any larger bound: `convert_impls` gives what an unbounded walk
/// gives.
pub proof fn law_walks_bound<X>(inner: Seq<Interface<X>>, parents: Seq<usize>, f: nat, g: nat)
    requires
        f <= g,
        walks(inner, parents, f) is Some,
    ensures
        walks(inner, parents, g) == walks(inner, parents, f),
    decreases parents.len(),
{
    if parents.len() > 0 {
        let last = parents.last();
        law_walks_bound(inner, parents.drop_last(), f, g);
        law_walk_bound(inner, last, inner[last as int].name@, f, g);
    }
}

proof fn lemma_walks_none_entry<X>(inner: Seq<Interface<X>>, parents: Seq<usize>, f: nat)
    requires
        walks(inner, parents, f) is None,
    ensures
        exists|k: int| 0 <= k < parents.len() && #[trigger] walk(inner, parents[k], inner[parents[k] as int].name@, f) is None,
    decreases parents.len(),
{
    let d = parents.drop_last();
    if walks(inner, d, f) is None {
        lemma_walks_none_entry(inner, d, f);
        let k = choose|k: int| 0 <= k < d.len() && #[trigger] walk(inner, d[k], inner[d[k] as int].name@, f) is None;
        assert(d[k] == parents[k]);
    } else {
        let k = parents.len() - 1;
        assert(walk(inner, parents[k], inner[parents[k] as int].name@, f) is None);
    }
}

proof fn lemma_all_continue<X>(inner: Seq<Interface<X>>, c: Seq<char>, a: nat, b: nat, i: nat)
    requires
        a < b,
        chain_name(inner, c, a) == chain_name(inner, c, b),
        forall|k: nat| k < b ==> continues(inner, #[trigger] chain_name(inner, c, k)),
    ensures
        continues(inner, chain_name(inner, c, i)),
    decreases i,
{
    if i >= b {
        let t = (i - b) as nat;
        lemma_chain_add(inner, c, b, t);
        lemma_chain_add(inner, c, a, t);
        assert(b + t == i);
        lemma_all_continue(inner, c, a, b, a + t);
    }
}

/// The walk from the interface declared at `from` does not end under any
/// bound.
pub open spec fn endless<X>(inner: Seq<Interface<X>>, from: usize) -> bool {
    forall|m: nat| #[trigger] walk(inner, from, inner[from as int].name@, m) is None
}

/// Where `convert_impls` gives no conversions, the chain of parents of some
/// entry never ends: it comes back to a name it passed, and no bound,
/// however large, would let the walk finish.
pub proof fn law_endless_chain<X>(ifs: Interfaces<X>)
    requires
        ifs.wf(),
        walks(ifs.inner@, ifs.parents@, ifs.parents@.len()) is None,
    ensures
        exists|k: int| 0 <= k < ifs.parents@.len() && #[trigger] endless(ifs.inner@, ifs.parents@[k]),
{
    let inner = ifs.inner@;
    let ps = ifs.parents@;
    let n = ps.len();
    lemma_walks_none_entry(inner, ps, n);
    let k = choose|k: int| 0 <= k < ps.len() && #[trigger] walk(inner, ps[k], inner[ps[k] as int].name@, n) is None;
    let from = ps[k];
    let c = inner[from as int].name@;
    lemma_walk_none(inner, from, c, n);
    // Each of the names reached in the first `n` steps has an entry.
    let ent = |i: int| choose|e: int| #[trigger] has_entry(inner, ps, e, chain_name(inner, c, i as nat));
    assert forall|i: int| 0 <= i <= n implies #[trigger] has_entry(inner, ps, ent(i), chain_name(inner, c, i as nat)) by {
        let ci = chain_name(inner, c, i as nat);
        lemma_declared_parent(inner, ci);
        if i < n {
            assert(continues(inner, chain_name(inner, c, i as nat)));
        }
        let j = declared_parent(inner, ci)->0;
        assert(with_parent(inner, j));
    }
    // Two of those `n + 1` names share an entry, so they are the same name.
    let dom = set_int_range(0, n as int + 1);
    let img = dom.map(ent);
    lemma_int_range(0, n as int + 1);
    lemma_int_range(0, n as int);
    assert(img.subset_of(set_int_range(0, n as int))) by {
        assert forall|e: int| img.contains(e) implies set_int_range(0, n as int).contains(e) by {
            let i = choose|i: int| dom.contains(i) && ent(i) == e;
            assert(has_entry(inner, ps, ent(i), chain_name(inner, c, i as nat)));
        }
    }
    if injective_on(ent, dom) {
        lemma_map_size(dom, img, ent);
        lemma_len_subset(img, set_int_range(0, n as int));
        assert(false);
    }
    let (a0, b0) = choose|x: int, y: int| dom.contains(x) && dom.contains(y) && #[trigger] ent(x) == #[trigger] ent(y) && x != y;
    let (a, b) = if a0 < b0 { (a0 as nat, b0 as nat) } else { (b0 as nat, a0 as nat) };
    assert(has_entry(inner, ps, ent(a as int), chain_name(inner, c, a)));
    assert(has_entry(inner, ps, ent(b as int), chain_name(inner, c, b)));
    assert(chain_name(inner, c, a) == chain_name(inner, c, b));
    assert forall|kk: nat| kk < b implies continues(inner, #[trigger] chain_name(inner, c, kk)) by {}
    assert forall|m: nat| #[trigger] walk(inner, from, c, m) is None by {
        assert forall|i: nat| i < m implies continues(inner, #[trigger] chain_name(inner, c, i)) by {
            lemma_all_continue(inner, c, a, b, i);
        }
        lemma_all_continue(inner, c, a, b, m);
        lemma_walk_none(inner, from, c, m);
    }
    assert(endless(inner, ps[k]));
}

} // verus!
