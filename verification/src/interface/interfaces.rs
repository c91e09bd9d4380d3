//! All interfaces of one `interfaces!` invocation, which interface derives
//! from which, and the conversions generated from a derived interface into
//! each of its ancestors.
use vstd::prelude::*;
use crate::path::PathModel;
use crate::text::{chars_of, string_of};
use super::interface::Interface;

verus! {

/// The interfaces of one invocation, in the order they were declared, and
/// for each interface name declared with a parent, the position in `inner`
/// of the last declaration of that name with a parent.
#[derive(Debug)]
pub struct Interfaces<X> {
    pub inner: Vec<Interface<X>>,
    pub parents: Vec<usize>,
}

/// The position of the last interface named `name` that was declared with a
/// parent: later declarations of a name replace earlier ones.
pub open spec fn declared_parent<X>(inner: Seq<Interface<X>>, name: Seq<char>) -> Option<int>
    decreases inner.len(),
{
    if inner.len() == 0 {
        None
    } else if inner.last().name@ == name && inner.last().parent is Some {
        Some(inner.len() - 1)
    } else {
        declared_parent(inner.drop_last(), name)
    }
}

/// Entry `k` of `parents` is the one for `name`.
pub open spec fn has_entry<X>(inner: Seq<Interface<X>>, parents: Seq<usize>, k: int, name: Seq<char>) -> bool {
    0 <= k < parents.len() && inner[parents[k] as int].name@ == name
}

/// The interface at `i` was declared with a parent.
pub open spec fn with_parent<X>(inner: Seq<Interface<X>>, i: int) -> bool {
    0 <= i < inner.len() && inner[i].parent is Some
}

/// `declared_parent` finds the last interface of that name with a parent.
pub proof fn lemma_declared_parent<X>(inner: Seq<Interface<X>>, name: Seq<char>)
    ensures
        declared_parent(inner, name) matches Some(j) ==> {
            &&& with_parent(inner, j)
            &&& inner[j].name@ == name
            &&& forall|i: int| j < i < inner.len() && #[trigger] with_parent(inner, i) ==> inner[i].name@ != name
        },
        declared_parent(inner, name) is None ==> forall|i: int| #[trigger] with_parent(inner, i) ==> inner[i].name@ != name,
    decreases inner.len(),
{
    if inner.len() > 0 {
        lemma_declared_parent(inner.drop_last(), name);
        let d = inner.drop_last();
        assert forall|i: int| 0 <= i < d.len() implies #[trigger] d[i] == inner[i] by {}
        assert forall|i: int| 0 <= i < d.len() implies #[trigger] with_parent(inner, i) == with_parent(d, i) by {}
    }
}


/// One conversion generated for a derived interface: the interface declared
/// at `interface` converts into the parent path given in the declaration at
/// `parent` (`From`, for references too, and `Into<Param>`).
#[derive(Debug, Clone, Copy, PartialEq, Eq)]
pub struct ConvertImpl {
    pub interface: usize,
    pub parent: usize,
}

/// The single identifier of a path, if it is one.
pub open spec fn single_ident(p: PathModel) -> Option<Seq<char>> {
    if !p.leading_colon && p.segments@.len() == 1 && !p.segments@[0].has_arguments {
        Some(p.segments@[0].ident@)
    } else {
        None
    }
}

/// `rest` behind the conversions `acc`.
pub open spec fn prepend(acc: Seq<ConvertImpl>, rest: Option<Seq<ConvertImpl>>) -> Option<Seq<ConvertImpl>> {
    match rest {
        Some(r) => Some(acc + r),
        None => None,
    }
}

/// The conversions for the interface declared at `from`, starting at the
/// name `cur`: while `cur` has a parent, one conversion into that parent,
/// and on with the parent's name when the parent path is a single
/// identifier. `None` when more than `fuel` steps would be taken.
pub open spec fn walk<X>(inner: Seq<Interface<X>>, from: usize, cur: Seq<char>, fuel: nat) -> Option<Seq<ConvertImpl>>
    decreases fuel,
{
    match declared_parent(inner, cur) {
        None => Some(Seq::empty()),
        Some(j) => if fuel == 0 {
            None
        } else {
            let head = ConvertImpl { interface: from, parent: j as usize };
            match inner[j].parent {
                Some(p) => match single_ident(p) {
                    Some(next) => prepend(seq![head], walk(inner, from, next, (fuel - 1) as nat)),
                    None => Some(seq![head]),
                },
                None => Some(seq![head]),
            }
        },
    }
}

/// The conversions of the entries `parents`, in order; `None` when a walk
/// takes more than `fuel` steps.
pub open spec fn walks<X>(inner: Seq<Interface<X>>, parents: Seq<usize>, fuel: nat) -> Option<Seq<ConvertImpl>>
    decreases parents.len(),
{
    if parents.len() == 0 {
        Some(Seq::empty())
    } else {
        let last = parents.last();
        match walks(inner, parents.drop_last(), fuel) {
            Some(a) => prepend(a, walk(inner, last, inner[last as int].name@, fuel)),
            None => None,
        }
    }
}

proof fn lemma_walks_none<X>(inner: Seq<Interface<X>>, parents: Seq<usize>, fuel: nat, k: int, m: int)
    requires
        0 <= k <= m <= parents.len(),
        walks(inner, parents.take(k), fuel) is None,
    ensures
        walks(inner, parents.take(m), fuel) is None,
    decreases m - k,
{
    if k < m {
        lemma_walks_none(inner, parents, fuel, k, m - 1);
        assert(parents.take(m).drop_last() =~= parents.take(m - 1));
    }
}

impl<X> Interfaces<X> {
    /// Each entry of `parents` is the last declaration with a parent of its
    /// name, no name has two entries, and every name declared with a parent
    /// has one.
    pub open spec fn wf(&self) -> bool {
        &&& forall|k: int| 0 <= k < self.parents@.len() ==> #[trigger] self.parents@[k] < self.inner@.len()
            && declared_parent(self.inner@, self.inner@[self.parents@[k] as int].name@) == Some(self.parents@[k] as int)
        &&& forall|k: int, l: int| 0 <= k < l < self.parents@.len() ==>
            self.inner@[#[trigger] self.parents@[k] as int].name@ != self.inner@[#[trigger] self.parents@[l] as int].name@
        &&& forall|i: int| #[trigger] with_parent(self.inner@, i) ==>
            exists|k: int| #[trigger] has_entry(self.inner@, self.parents@, k, self.inner@[i].name@)
    }

    pub fn new() -> (r: Interfaces<X>)
        ensures
            r.wf(),
            r.inner@.len() == 0,
            r.parents@.len() == 0,
    {
        Interfaces { inner: Vec::new(), parents: Vec::new() }
    }

    fn find_entry(&self, name: &String) -> (r: Option<usize>)
        requires
            self.wf(),
        ensures
            r matches Some(k) ==> has_entry(self.inner@, self.parents@, k as int, name@),
            r is None ==> forall|k: int| !#[trigger] has_entry(self.inner@, self.parents@, k, name@),
    {
        let mut k: usize = 0;
        while k < self.parents.len()
            invariant
                self.wf(),
                k <= self.parents@.len(),
                forall|l: int| 0 <= l < k ==> !#[trigger] has_entry(self.inner@, self.parents@, l, name@),
            decreases self.parents@.len() - k,
        {
            let p = self.parents[k];
            assert(self.parents@[k as int] < self.inner@.len());
            if self.inner[p].name == *name {
                return Some(k);
            }
            k = k + 1;
        }
        None
    }

    /// Adds the next declared interface; when it names a parent, it becomes
    /// the entry of its name, in place of an earlier one.
    pub fn push(&mut self, interface: Interface<X>)
        requires
            old(self).wf(),
        ensures
            final(self).wf(),
            final(self).inner@ == old(self).inner@.push(interface),
            interface.parent is None ==> final(self).parents@ == old(self).parents@,
            interface.parent is Some ==> {
                ||| exists|k: int| #[trigger] has_entry(old(self).inner@, old(self).parents@, k, interface.name@)
                        && final(self).parents@ == old(self).parents@.update(k, old(self).inner@.len() as usize)
                ||| (forall|k: int| !#[trigger] has_entry(old(self).inner@, old(self).parents@, k, interface.name@))
                        && final(self).parents@ == old(self).parents@.push(old(self).inner@.len() as usize)
            },
    {
        let ghost old_inner = self.inner@;
        let ghost old_parents = self.parents@;
        let n = self.inner.len();
        let ghost x = interface;
        if interface.parent.is_some() {
            match self.find_entry(&interface.name) {
                Some(k) => {
                    self.parents.set(k, n);
                },
                None => {
                    self.parents.push(n);
                },
            }
        }
        self.inner.push(interface);
        proof {
            let inner = self.inner@;
            assert(inner.drop_last() =~= old_inner);
            assert(inner.last() == x);
            assert forall|i: int| 0 <= i < n implies #[trigger] inner[i] == old_inner[i] by {}
            assert forall|i: int| 0 <= i < n implies #[trigger] with_parent(inner, i) == with_parent(old_inner, i) by {}
            assert forall|m: Seq<char>| m != x.name@ || x.parent is None implies
                #[trigger] declared_parent(inner, m) == declared_parent(old_inner, m) by {}
            if x.parent is Some {
                assert(declared_parent(inner, x.name@) == Some(n as int));
            }
            let ps = self.parents@;
            assert forall|k: int| 0 <= k < ps.len() implies #[trigger] ps[k] < inner.len()
                && declared_parent(inner, inner[ps[k] as int].name@) == Some(ps[k] as int) by {
                if ps[k] != n {
                    assert(ps[k] == old_parents[k]);
                    if x.parent is Some && inner[ps[k] as int].name@ == x.name@ {
                        assert(has_entry(old_inner, old_parents, k, x.name@));
                    }
                }
            }
            assert forall|k: int, l: int| 0 <= k < l < ps.len() implies
                inner[#[trigger] ps[k] as int].name@ != inner[#[trigger] ps[l] as int].name@ by {
                if ps[k] == n {
                    assert(ps[l] == old_parents[l]);
                    if k < old_parents.len() {
                        assert(has_entry(old_inner, old_parents, k, x.name@));
                        assert(old_inner[old_parents[k] as int].name@ != old_inner[old_parents[l] as int].name@);
                    } else {
                        assert(has_entry(old_inner, old_parents, l, x.name@) ==> false);
                    }
                } else if ps[l] == n {
                    assert(ps[k] == old_parents[k]);
                    if l < old_parents.len() {
                        assert(has_entry(old_inner, old_parents, l, x.name@));
                        assert(old_inner[old_parents[k] as int].name@ != old_inner[old_parents[l] as int].name@);
                    } else {
                        assert(!has_entry(old_inner, old_parents, k, x.name@));
                    }
                } else {
                    assert(ps[k] == old_parents[k]);
                    assert(ps[l] == old_parents[l]);
                    assert(old_inner[old_parents[k] as int].name@ != old_inner[old_parents[l] as int].name@);
                }
            }
            assert forall|i: int| #[trigger] with_parent(inner, i) implies
                exists|k: int| #[trigger] has_entry(inner, ps, k, inner[i].name@) by {
                if i == n {
                    if exists|k: int| #[trigger] has_entry(old_inner, old_parents, k, x.name@) {
                        let k = choose|k: int| #[trigger] has_entry(old_inner, old_parents, k, x.name@);
                        assert(has_entry(inner, ps, k, inner[i].name@));
                    } else {
                        assert(has_entry(inner, ps, old_parents.len() as int, inner[i].name@));
                    }
                } else {
                    assert(with_parent(old_inner, i));
                    let k = choose|k: int| #[trigger] has_entry(old_inner, old_parents, k, old_inner[i].name@);
                    if ps[k] == n {
                        assert(has_entry(inner, ps, k, inner[i].name@));
                    } else {
                        assert(ps[k] == old_parents[k]);
                        assert(has_entry(inner, ps, k, inner[i].name@));
                    }
                }
            }
        }
    }

    /// The conversions for the interface declared at `from`, at most `fuel`
    /// steps up its chain of parents; `None` when the chain goes on longer.
    #[verifier::loop_isolation(false)]
    fn walk_from(&self, from: usize, fuel: usize) -> (r: Option<Vec<ConvertImpl>>)
        requires
            from < self.inner@.len(),
        ensures
            walk(self.inner@, from, self.inner@[from as int].name@, fuel as nat) matches Some(s) ==> (r matches Some(v) && v@ == s),
            walk(self.inner@, from, self.inner@[from as int].name@, fuel as nat) is None ==> r is None,
    {
        let ghost inner = self.inner@;
        let ghost start = inner[from as int].name@;
        let mut cur: String = self.inner[from].name.clone();
        let mut acc: Vec<ConvertImpl> = Vec::new();
        let mut steps: usize = 0;
        assert(acc@ + seq![] =~= acc@);
        loop
            invariant
                steps <= fuel,
                prepend(acc@, walk(inner, from, cur@, (fuel - steps) as nat)) == walk(inner, from, start, fuel as nat),
            decreases fuel - steps,
        {
            let ghost f = (fuel - steps) as nat;
            proof { lemma_declared_parent(inner, cur@); }
            match self.lookup(cur.as_str()) {
                None => {
                    assert(acc@ + Seq::<ConvertImpl>::empty() =~= acc@);
                    return Some(acc);
                },
                Some(j) => {
                    if steps == fuel {
                        return None;
                    }
                    let head = ConvertImpl { interface: from, parent: j };
                    proof {
                        // The position found is that of a declaration with a parent.
                        let jj = declared_parent(inner, cur@)->0;
                        assert(jj < self.inner.len());
                    }
                    let ghost acc0 = acc@;
                    acc.push(head);
                    match &self.inner[j].parent {
                        Some(p) => {
                            match p.get_ident() {
                                Some(id) => {
                                    let ghost next = id@;
                                    assert(single_ident(*p) == Some(next));
                                    proof {
                                        match walk(inner, from, next, (f - 1) as nat) {
                                            Some(r) => {
                                                assert(acc0.push(head) + r =~= acc0 + (seq![head] + r));
                                            },
                                            None => {},
                                        }
                                    }
                                    cur = id;
                                },
                                None => {
                                    assert(acc0 + seq![head] =~= acc0.push(head));
                                    return Some(acc);
                                },
                            }
                        },
                        None => {
                            return Some(acc);
                        },
                    }
                    steps = steps + 1;
                },
            }
        }
    }

    /// For each entry of `parents`, in order, the conversions from its
    /// interface into each of its ancestors, nearest first; `None` when a
    /// chain of parents comes back to a name it passed, so that it would
    /// never end.
    pub fn convert_impls(&self) -> (r: Option<Vec<ConvertImpl>>)
        requires
            self.wf(),
        ensures
            walks(self.inner@, self.parents@, self.parents@.len()) matches Some(s) ==> (r matches Some(v) && v@ == s),
            walks(self.inner@, self.parents@, self.parents@.len()) is None ==> r is None,
    {
        let fuel = self.parents.len();
        let ghost inner = self.inner@;
        let ghost ps = self.parents@;
        let mut out: Vec<ConvertImpl> = Vec::new();
        let mut k: usize = 0;
        assert(ps.take(0) =~= Seq::<usize>::empty());
        while k < self.parents.len()
            invariant
                self.wf(),
                inner == self.inner@,
                ps == self.parents@,
                fuel == ps.len(),
                k <= ps.len(),
                walks(inner, ps.take(k as int), fuel as nat) == Some(out@),
            decreases ps.len() - k,
        {
            let from = self.parents[k];
            assert(ps[k as int] < inner.len());
            assert(ps.take(k + 1).drop_last() =~= ps.take(k as int));
            assert(ps.take(k + 1).last() == from);
            match self.walk_from(from, fuel) {
                Some(mut seg) => {
                    out.append(&mut seg);
                },
                None => {
                    proof { lemma_walks_none(inner, ps, fuel as nat, k + 1, ps.len() as int); }
                    assert(ps.take(ps.len() as int) =~= ps);
                    return None;
                },
            }
            k = k + 1;
        }
        assert(ps.take(ps.len() as int) =~= ps);
        Some(out)
    }

    /// The position of the last interface named `name` declared with a
    /// parent.
    pub fn lookup(&self, name: &str) -> (r: Option<usize>)
        ensures
            declared_parent(self.inner@, name@) matches Some(j) ==> r == Some(j as usize),
            declared_parent(self.inner@, name@) is None ==> r is None,
    {
        let ghost inner = self.inner@;
        let target = string_of(&chars_of(name));
        let mut i: usize = self.inner.len();
        assert(inner.take(i as int) =~= inner);
        while i > 0
            invariant
                i <= inner.len(),
                inner == self.inner@,
                target@ == name@,
                declared_parent(inner.take(i as int), name@) == declared_parent(inner, name@),
            decreases i,
        {
            let ghost t = inner.take(i as int);
            assert(t.drop_last() =~= inner.take(i - 1));
            assert(t.last() == inner[i - 1]);
            if self.inner[i - 1].parent.is_some() && self.inner[i - 1].name == target {
                return Some(i - 1);
            }
            i = i - 1;
        }
        assert(inner.take(0) =~= Seq::<Interface<X>>::empty());
        None
    }
}

} // verus!
