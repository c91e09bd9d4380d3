use vstd::prelude::*;
use crate::path::{PathModel, Segment};
use crate::text::{chars_of, decimal, decimal_chars, push_all, push_str, string_of};
use crate::utils::{snake_to_camel, spec_snake_to_camel};
use super::parse::is_implemented;
use super::collisions::same_shape;

verus! {

/// One interface chain of a class: an interface, and the parent it derives
/// from (`IFoo(IParent(IGrandParent))`).
#[derive(Debug)]
pub struct Interface {
    pub path: PathModel,
    pub parent: Option<Box<Interface>>,
}

/// The paths of an interface chain, starting with the interface itself and
/// ending with its most distant declared ancestor.
pub open spec fn chain_of(i: Interface) -> Seq<PathModel>
    decreases i,
{
    match i.parent {
        Some(p) => seq![i.path] + chain_of(*p),
        None => seq![i.path],
    }
}

/// The chains of several interfaces, one after another.
pub open spec fn flat_chains(ifs: Seq<Interface>) -> Seq<PathModel>
    decreases ifs.len(),
{
    if ifs.len() == 0 {
        Seq::empty()
    } else {
        flat_chains(ifs.drop_last()) + chain_of(ifs.last())
    }
}

/// Some path of `paths` has the text `t`.
pub open spec fn has_text(paths: Seq<PathModel>, t: Seq<char>) -> bool {
    exists|k: int| 0 <= k < paths.len() && (#[trigger] paths[k]).text@ == t
}

/// A method of a class's `impl` of an interface.
///
/// `ident` is the name under which the method is emitted; it starts out as
/// `original_ident`, the name written by the user, and differs from it only
/// when the method was renamed to resolve a name collision.
#[derive(Debug)]
pub struct InterfaceMethod<X> {
    pub item: X,
    pub ident: String,
    pub original_ident: String,
}

/// The methods a class provides for one interface (`impl IFoo for Class`).
#[derive(Debug)]
pub struct InterfaceImpl<X> {
    pub path: PathModel,
    pub methods: Vec<InterfaceMethod<X>>,
}

/// A user field of a class.
#[derive(Debug)]
pub struct Field<X> {
    pub ident: String,
    pub item: X,
}

/// A COM class. `X` is the syntax that the class carries through unchanged
/// (attributes, visibility, fields and method items).
#[derive(Debug)]
pub struct Class<X> {
    pub name: String,
    pub has_class_factory: bool,
    pub docs: Vec<X>,
    pub visibility: X,
    pub interfaces: Vec<Interface>,
    pub methods: Vec<InterfaceImpl<X>>,
    pub fields: Vec<Field<X>>,
    pub impl_debug: bool,
}

impl Interface {
    pub open spec fn chain(&self) -> Seq<PathModel> {
        chain_of(*self)
    }

    /// A new interface chain of one interface.
    pub fn new(path: PathModel) -> (r: Interface)
        ensures
            r.chain() == seq![path],
    {
        Interface { path, parent: None }
    }

    /// Replaces the parent of the chain member at `depth` by `path`, dropping
    /// whatever was declared above it (the effect of `IFoo(..)(IParent)`).
    pub fn set_parent_at(&mut self, depth: usize, path: PathModel)
        requires
            depth < old(self).chain().len(),
        ensures
            final(self).chain() == old(self).chain().take(depth + 1).push(path),
        decreases depth,
    {
        if depth == 0 {
            let ghost gp = path;
            let leaf = Interface { path, parent: None };
            assert(leaf.chain() == seq![gp]);
            self.parent = Some(Box::new(leaf));
            proof {
                assert(old(self).chain().take(1) =~= seq![old(self).path]);
                assert(self.chain() == seq![self.path] + leaf.chain());
                assert(self.chain() =~= old(self).chain().take(1).push(gp));
            }
        } else {
            let mut p = self.parent.take().unwrap();
            let ghost old_p = *p;
            (&mut *p).set_parent_at(depth - 1, path);
            self.parent = Some(p);
            proof {
                assert(old(self).chain() == seq![old(self).path] + old_p.chain());
                assert(old(self).chain().take(depth + 1) =~= seq![old(self).path] + old_p.chain().take(
                    depth as int,
                ));
                assert(self.chain() =~= seq![old(self).path] + (old_p.chain().take(depth as int).push(path)));
            }
        }
    }

    /// The paths of this chain, in order (what `iter_chain` yields).
    pub fn iter_chain(&self) -> (r: Vec<PathModel>)
        ensures
            r@.len() == self.chain().len(),
            forall|k: int| 0 <= k < r@.len() ==> (#[trigger] r@[k]).same_as(&self.chain()[k]),
        decreases self,
    {
        let mut r: Vec<PathModel> = Vec::new();
        r.push(self.path.duplicate());
        match &self.parent {
            Some(p) => {
                let rest = (&**p).iter_chain();
                let mut i: usize = 0;
                while i < rest.len()
                    invariant
                        i <= rest@.len(),
                        rest@.len() == p.chain().len(),
                        r@.len() == 1 + i,
                        r@[0].same_as(&self.path),
                        forall|k: int| 0 <= k < rest@.len() ==> (#[trigger] rest@[k]).same_as(&p.chain()[k]),
                        forall|k: int| 1 <= k < r@.len() ==> (#[trigger] r@[k]).same_as(&p.chain()[k - 1]),
                    decreases rest@.len() - i,
                {
                    r.push(rest[i].duplicate());
                    i = i + 1;
                }
                assert(self.chain() == seq![self.path] + p.chain());
            },
            None => {},
        }
        r
    }

    /// The name of the class field holding this chain's vtable pointer:
    /// `__{offset}_{last segment}`.
    pub fn chain_ident(&self, offset: usize) -> (r: String)
        requires
            self.path.segments@.len() > 0,
        ensures
            r@ == seq!['_', '_'] + decimal(offset as nat) + seq!['_'] + self.path.spec_last_ident(),
    {
        let mut s: Vec<char> = Vec::new();
        s.push('_');
        s.push('_');
        let d = decimal_chars(offset as u128);
        push_all(&mut s, &d);
        s.push('_');
        let last = self.path.last_ident();
        push_str(&mut s, last.as_str());
        assert(s@ =~= seq!['_', '_'] + decimal(offset as nat) + seq!['_'] + self.path.spec_last_ident());
        string_of(&s)
    }

    /// The name of the interface's vtable type: `{last segment}VTable`.
    pub fn vtable_ident(&self) -> (r: String)
        requires
            self.path.segments@.len() > 0,
        ensures
            r@ == self.path.spec_last_ident() + "VTable"@,
    {
        let last = self.path.last_ident();
        let mut s = chars_of(last.as_str());
        push_str(&mut s, "VTable");
        string_of(&s)
    }

    /// The name of the static item holding this chain's vtable:
    /// `{class}__{last segment}_VTABLE`.
    pub fn vtable_static_item_ident<X>(&self, class: &Class<X>) -> (r: String)
        requires
            self.path.segments@.len() > 0,
        ensures
            r@ == class.name@ + "__"@ + self.path.spec_last_ident() + "_VTABLE"@,
    {
        let mut s = chars_of(class.name.as_str());
        push_str(&mut s, "__");
        let last = self.path.last_ident();
        push_str(&mut s, last.as_str());
        push_str(&mut s, "_VTABLE");
        assert(s@ =~= class.name@ + "__"@ + self.path.spec_last_ident() + "_VTABLE"@);
        string_of(&s)
    }
}


/// The members of the chains of `ifs`, each with the index of its chain.
pub open spec fn indexed_chains(ifs: Seq<Interface>) -> Seq<(nat, PathModel)>
    decreases ifs.len(),
{
    if ifs.len() == 0 {
        Seq::empty()
    } else {
        let i = (ifs.len() - 1) as nat;
        indexed_chains(ifs.drop_last()) + chain_of(ifs.last()).map_values(|p: PathModel| (i, p))
    }
}

/// The positions in `texts` whose text does not occur earlier, in order.
pub open spec fn first_indices(texts: Seq<Seq<char>>) -> Seq<int>
    decreases texts.len(),
{
    if texts.len() == 0 {
        Seq::empty()
    } else {
        let prev = texts.drop_last();
        if prev.contains(texts.last()) {
            first_indices(prev)
        } else {
            first_indices(prev).push(texts.len() - 1)
        }
    }
}

/// The text at `i` does not occur before `i`.
pub open spec fn is_first(texts: Seq<Seq<char>>, i: int) -> bool {
    &&& 0 <= i < texts.len()
    &&& forall|j: int| 0 <= j < i ==> texts[j] != #[trigger] texts[i]
}

/// Each interface of a class's chains gets exactly one `From` impl: the
/// positions kept are the first occurrences of their texts, in increasing
/// order, so no text is kept twice, and every text of the chains is kept.
pub proof fn law_from_impls_unique(texts: Seq<Seq<char>>)
    ensures
        forall|k: int| 0 <= k < first_indices(texts).len() ==> is_first(texts, #[trigger] first_indices(texts)[k]),
        forall|k: int, l: int| 0 <= k < l < first_indices(texts).len() ==>
            #[trigger] first_indices(texts)[k] < #[trigger] first_indices(texts)[l],
        forall|k: int, l: int| 0 <= k < l < first_indices(texts).len() ==>
            texts[#[trigger] first_indices(texts)[k]] != texts[#[trigger] first_indices(texts)[l]],
        forall|i: int| 0 <= i < texts.len() ==> exists|k: int| 0 <= k < first_indices(texts).len()
            && texts[#[trigger] first_indices(texts)[k]] == #[trigger] texts[i],
    decreases texts.len(),
{
    if texts.len() > 0 {
        let prev = texts.drop_last();
        let n = texts.len() - 1;
        law_from_impls_unique(prev);
        let fp = first_indices(prev);
        let f = first_indices(texts);
        assert forall|i: int| 0 <= i < n implies #[trigger] prev[i] == texts[i] by {}
        assert forall|i: int| 0 <= i < n && #[trigger] is_first(prev, i) implies is_first(texts, i) by {
            assert forall|j: int| 0 <= j < i implies texts[j] != #[trigger] texts[i] by {
                assert(prev[j] != prev[i]);
            }
        }
        if prev.contains(texts.last()) {
            assert(f == fp);
            let w = choose|w: int| 0 <= w < prev.len() && prev[w] == texts.last();
            assert forall|i: int| 0 <= i < texts.len() implies exists|k: int| 0 <= k < f.len()
                && texts[#[trigger] f[k]] == #[trigger] texts[i] by {
                let ii = if i == n { w } else { i };
                assert(prev[ii] == texts[i]);
                let k = choose|k: int| 0 <= k < fp.len() && prev[#[trigger] fp[k]] == #[trigger] prev[ii];
                assert(is_first(prev, fp[k]));
                assert(texts[f[k]] == texts[i]);
            }
        } else {
            assert(f == fp.push(n));
            assert(is_first(texts, n)) by {
                assert forall|j: int| 0 <= j < n implies texts[j] != #[trigger] texts[n] by {
                    assert(prev[j] == texts[j]);
                }
            }
            assert forall|k: int| 0 <= k < f.len() implies is_first(texts, #[trigger] f[k]) by {
                if k < fp.len() {
                    assert(is_first(prev, fp[k]));
                }
            }
            assert forall|k: int, l: int| 0 <= k < l < f.len() implies #[trigger] f[k] < #[trigger] f[l] by {
                if l < fp.len() {
                    assert(fp[k] < fp[l]);
                } else {
                    assert(is_first(prev, fp[k]));
                }
            }
            assert forall|k: int, l: int| 0 <= k < l < f.len() implies texts[#[trigger] f[k]] != texts[#[trigger] f[l]] by {
                assert(is_first(texts, f[k]));
                assert(is_first(texts, f[l]));
                if l < fp.len() {
                    assert(fp[k] < fp[l]);
                } else {
                    assert(is_first(prev, fp[k]));
                }
            }
            assert forall|i: int| 0 <= i < texts.len() implies exists|k: int| 0 <= k < f.len()
                && texts[#[trigger] f[k]] == #[trigger] texts[i] by {
                if i == n {
                    assert(texts[f[fp.len() as int]] == texts[i]);
                } else {
                    let k = choose|k: int| 0 <= k < fp.len() && prev[#[trigger] fp[k]] == #[trigger] prev[i];
                    assert(is_first(prev, fp[k]));
                    assert(texts[f[k]] == texts[i]);
                }
            }
        }
    }
}

pub open spec fn texts_of(s: Seq<(nat, PathModel)>) -> Seq<Seq<char>> {
    s.map_values(|e: (nat, PathModel)| e.1.text@)
}

/// A `From` impl to generate: from a reference to the class to the
/// interface `interface`, through the vtable pointer field `chain_ident`.
#[derive(Debug)]
pub struct FromImpl {
    pub chain_ident: String,
    pub interface: PathModel,
}

/// All interfaces of the chains have a non-empty path.
pub open spec fn paths_nonempty(ifs: Seq<Interface>) -> bool {
    forall|i: int| 0 <= i < ifs.len() ==> (#[trigger] ifs[i]).path.segments@.len() > 0
}

pub open spec fn chain_ident_of(ifs: Seq<Interface>, index: nat) -> Seq<char> {
    seq!['_', '_'] + decimal(index) + seq!['_'] + ifs[index as int].path.spec_last_ident()
}

proof fn lemma_indexed_chains_bound(ifs: Seq<Interface>)
    ensures
        forall|k: int| 0 <= k < indexed_chains(ifs).len() ==> (#[trigger] indexed_chains(ifs)[k]).0 < ifs.len(),
    decreases ifs.len(),
{
    if ifs.len() > 0 {
        lemma_indexed_chains_bound(ifs.drop_last());
        let prev = indexed_chains(ifs.drop_last());
        let added = chain_of(ifs.last()).map_values(|p: PathModel| ((ifs.len() - 1) as nat, p));
        assert forall|k: int| 0 <= k < indexed_chains(ifs).len() implies (#[trigger] indexed_chains(ifs)[k]).0 < ifs.len() by {
            if k < prev.len() {
                assert(indexed_chains(ifs)[k] == prev[k]);
            } else {
                assert(indexed_chains(ifs)[k] == added[k - prev.len()]);
            }
        }
    }
}

impl<X> Class<X> {
    /// The members of all chains, with the index of their chain.
    pub fn indexed_chain_list(&self) -> (r: Vec<(usize, PathModel)>)
        ensures
            r@.len() == indexed_chains(self.interfaces@).len(),
            forall|k: int| 0 <= k < r@.len() ==> {
                &&& (#[trigger] r@[k]).0 as nat == indexed_chains(self.interfaces@)[k].0
                &&& r@[k].1.same_as(&indexed_chains(self.interfaces@)[k].1)
            },
    {
        let ghost ifs = self.interfaces@;
        let mut out: Vec<(usize, PathModel)> = Vec::new();
        let mut i: usize = 0;
        while i < self.interfaces.len()
            invariant
                i <= ifs.len(),
                ifs == self.interfaces@,
                out@.len() == indexed_chains(ifs.take(i as int)).len(),
                forall|k: int| 0 <= k < out@.len() ==> {
                    &&& (#[trigger] out@[k]).0 as nat == indexed_chains(ifs.take(i as int))[k].0
                    &&& out@[k].1.same_as(&indexed_chains(ifs.take(i as int))[k].1)
                },
            decreases ifs.len() - i,
        {
            let ghost before = indexed_chains(ifs.take(i as int));
            let ghost ch = chain_of(ifs[i as int]);
            let ghost added = ch.map_values(|p: PathModel| (i as nat, p));
            assert(ifs.take(i + 1).drop_last() =~= ifs.take(i as int));
            assert(indexed_chains(ifs.take(i + 1)) == before + added);
            let chain = self.interfaces[i].iter_chain();
            let mut j: usize = 0;
            while j < chain.len()
                invariant
                    j <= chain@.len(),
                    chain@.len() == ch.len(),
                    forall|k: int| 0 <= k < chain@.len() ==> (#[trigger] chain@[k]).same_as(&ch[k]),
                    out@.len() == before.len() + j,
                    forall|k: int| 0 <= k < before.len() ==> {
                        &&& (#[trigger] out@[k]).0 as nat == before[k].0
                        &&& out@[k].1.same_as(&before[k].1)
                    },
                    forall|k: int| before.len() <= k < out@.len() ==> {
                        &&& (#[trigger] out@[k]).0 == i
                        &&& out@[k].1.same_as(&ch[k - before.len()])
                    },
                decreases chain@.len() - j,
            {
                out.push((i, chain[j].duplicate()));
                j = j + 1;
            }
            i = i + 1;
        }
        assert(ifs.take(ifs.len() as int) =~= ifs);
        out
    }

    /// The `From` impls that convert a class reference into each interface it
    /// implements: one per interface of its chains, taken from the first
    /// chain that contains it, in declaration order.
    pub fn interface_from_impls(&self) -> (r: Vec<FromImpl>)
        requires
            paths_nonempty(self.interfaces@),
        ensures
            ({
                let flat = indexed_chains(self.interfaces@);
                let firsts = first_indices(texts_of(flat));
                &&& r@.len() == firsts.len()
                &&& forall|k: int| 0 <= k < r@.len() ==> {
                    &&& (#[trigger] r@[k]).interface.same_as(&flat[firsts[k]].1)
                    &&& r@[k].chain_ident@ == chain_ident_of(self.interfaces@, flat[firsts[k]].0)
                }
            }),
    {
        let ghost flat = indexed_chains(self.interfaces@);
        let ghost t = texts_of(flat);
        let list = self.indexed_chain_list();
        proof {
            lemma_indexed_chains_bound(self.interfaces@);
        }
        let mut out: Vec<FromImpl> = Vec::new();
        let mut i: usize = 0;
        while i < list.len()
            invariant
                i <= list@.len(),
                list@.len() == flat.len(),
                t == texts_of(flat),
                flat == indexed_chains(self.interfaces@),
                paths_nonempty(self.interfaces@),
                forall|k: int| 0 <= k < flat.len() ==> (#[trigger] flat[k]).0 < self.interfaces@.len(),
                forall|k: int| 0 <= k < list@.len() ==> {
                    &&& (#[trigger] list@[k]).0 as nat == flat[k].0
                    &&& list@[k].1.same_as(&flat[k].1)
                },
                out@.len() == first_indices(t.take(i as int)).len(),
                forall|k: int| 0 <= k < out@.len() ==> {
                    let f = #[trigger] first_indices(t.take(i as int))[k];
                    &&& 0 <= f < i
                    &&& out@[k].interface.same_as(&flat[f].1)
                    &&& out@[k].chain_ident@ == chain_ident_of(self.interfaces@, flat[f].0)
                },
            decreases list@.len() - i,
        {
            let ghost cur = t.take(i as int);
            assert(t.take(i + 1).drop_last() =~= cur);
            assert(t.take(i + 1).last() == t[i as int]);
            let mut dup = false;
            let mut k: usize = 0;
            while k < i
                invariant
                    k <= i,
                    i < list@.len(),
                    list@.len() == flat.len(),
                    t == texts_of(flat),
                    cur == t.take(i as int),
                    forall|q: int| 0 <= q < list@.len() ==> (#[trigger] list@[q]).1.same_as(&flat[q].1),
                    dup == exists|q: int| 0 <= q < k && (#[trigger] cur[q]) == t[i as int],
                decreases i - k,
            {
                assert(list@[k as int].1.same_as(&flat[k as int].1));
                assert(list@[i as int].1.same_as(&flat[i as int].1));
                assert(cur[k as int] == t[k as int]);
                assert(t[k as int] == flat[k as int].1.text@);
                assert(t[i as int] == flat[i as int].1.text@);
                if list[k].1.text == list[i].1.text {
                    dup = true;
                }
                k = k + 1;
            }
            assert(dup == cur.contains(t[i as int]));
            if !dup {
                let idx = list[i].0;
                assert(idx < self.interfaces@.len());
                let ident = self.interfaces[idx].chain_ident(idx);
                out.push(FromImpl { chain_ident: ident, interface: list[i].1.duplicate() });
            }
            i = i + 1;
        }
        assert(t.take(t.len() as int) =~= t);
        out
    }

    /// The name of the class factory of the class, when it has one (the
    /// `Factory` type of its `Class` impl is `()` otherwise).
    pub fn factory(&self) -> (r: Option<String>)
        ensures
            r is Some == self.has_class_factory,
            r matches Some(f) ==> f@ == self.name@ + "ClassFactory"@,
    {
        if self.has_class_factory {
            Some(crate::utils::class_factory_ident(self.name.as_str()))
        } else {
            None
        }
    }

    /// The fields that the generated `Debug` impl prints, when the class
    /// requested one with `#[derive(Debug)]`.
    pub fn debug(&self) -> (r: Option<Vec<String>>)
        ensures
            r is Some == self.impl_debug,
            r matches Some(v) ==> v@.len() == self.fields@.len() && forall|k: int| 0 <= k < v@.len() ==> (#[trigger] v@[k])@ == self.fields@[k].ident@,
    {
        if !self.impl_debug {
            return None;
        }
        let mut v: Vec<String> = Vec::new();
        let mut i: usize = 0;
        while i < self.fields.len()
            invariant
                i <= self.fields@.len(),
                v@.len() == i,
                forall|k: int| 0 <= k < i ==> (#[trigger] v@[k])@ == self.fields@[k].ident@,
            decreases self.fields@.len() - i,
        {
            v.push(self.fields[i].ident.clone());
            i = i + 1;
        }
        Some(v)
    }

    /// The index of the `impl` block of the interface `path`.
    pub fn methods_for(&self, path: &PathModel) -> (r: Option<usize>)
        ensures
            r matches Some(i) ==> i < self.methods@.len() && self.methods@[i as int].path.text@ == path.text@ && forall|k: int| 0 <= k < i ==> (#[trigger] self.methods@[k]).path.text@ != path.text@,
            r is None ==> forall|k: int| 0 <= k < self.methods@.len() ==> (#[trigger] self.methods@[k]).path.text@ != path.text@,
    {
        let mut i: usize = 0;
        while i < self.methods.len()
            invariant
                i <= self.methods@.len(),
                forall|k: int| 0 <= k < i ==> (#[trigger] self.methods@[k]).path.text@ != path.text@,
            decreases self.methods@.len() - i,
        {
            if self.methods[i].path.text == path.text {
                return Some(i);
            }
            i = i + 1;
        }
        None
    }
}

/// The vtable of one member of an interface chain, as a class fills it.
#[derive(Debug)]
pub struct VTableInit {
    /// `{last segment}VTable`, the alias of the member's vtable type.
    pub vtable_ident: String,
    /// The `impl` block whose methods fill the vtable.
    pub impl_index: usize,
    /// The field of each of those methods: the name written by the user,
    /// in camel case.
    pub fields: Vec<String>,
}

/// `init` is the vtable that a class with `impl` blocks `impls` fills for
/// the chain member `p`.
pub open spec fn is_vtable_init<X>(impls: Seq<InterfaceImpl<X>>, p: PathModel, init: VTableInit) -> bool {
    let i = init.impl_index as int;
    &&& init.vtable_ident@ == p.spec_last_ident() + "VTable"@
    &&& 0 <= i < impls.len()
    &&& impls[i].path.text@ == p.text@
    &&& forall|k: int| 0 <= k < i ==> (#[trigger] impls[k]).path.text@ != p.text@
    &&& init.fields@.len() == impls[i].methods@.len()
    &&& forall|j: int| 0 <= j < init.fields@.len() ==>
        (#[trigger] init.fields@[j])@ == spec_snake_to_camel(impls[i].methods@[j].original_ident@)
}

/// The vtables a class fills do not depend on the names the collision
/// renaming gives its methods: for two lists of `impl` blocks that differ
/// only in those names, the same vtable is filled for every chain member.
/// Each field is the name the user wrote for the method, in camel case.
pub proof fn law_vtable_init_ignores_renaming<X>(a: Seq<InterfaceImpl<X>>, b: Seq<InterfaceImpl<X>>, p: PathModel, init: VTableInit)
    requires
        same_shape(a, b),
    ensures
        is_vtable_init(a, p, init) <==> is_vtable_init(b, p, init),
{
    let i = init.impl_index as int;
    if 0 <= i < a.len() {
        assert(a[i].path == b[i].path);
        assert forall|k: int| 0 <= k < i implies (#[trigger] a[k]).path == b[k].path by {}
        assert forall|j: int| 0 <= j < a[i].methods@.len() implies (#[trigger] a[i].methods@[j]).original_ident == b[i].methods@[j].original_ident by {}
        if is_vtable_init(a, p, init) {
            assert forall|k: int| 0 <= k < i implies (#[trigger] b[k]).path.text@ != p.text@ by {
                assert(a[k].path == b[k].path);
            }
            assert forall|j: int| 0 <= j < init.fields@.len() implies
                (#[trigger] init.fields@[j])@ == spec_snake_to_camel(b[i].methods@[j].original_ident@) by {
                assert(a[i].methods@[j].original_ident == b[i].methods@[j].original_ident);
            }
        }
        if is_vtable_init(b, p, init) {
            assert forall|k: int| 0 <= k < i implies (#[trigger] a[k]).path.text@ != p.text@ by {
                assert(a[k].path == b[k].path);
            }
            assert forall|j: int| 0 <= j < init.fields@.len() implies
                (#[trigger] init.fields@[j])@ == spec_snake_to_camel(a[i].methods@[j].original_ident@) by {
                assert(a[i].methods@[j].original_ident == b[i].methods@[j].original_ident);
            }
        }
    }
}

impl<X> Class<X> {
    /// The vtables a class fills for the members of one of its chains, from
    /// the interface itself to its most distant ancestor, each from the
    /// `impl` block of that member. Every member must have an `impl` block
    /// (as every class that `finish` accepts has).
    pub fn initialized_vtables(&self, interface: &Interface) -> (r: Vec<VTableInit>)
        requires
            forall|k: int| 0 <= k < interface.chain().len() ==> (#[trigger] interface.chain()[k]).segments@.len() > 0,
            forall|k: int| 0 <= k < interface.chain().len() ==> is_implemented(self.methods@, (#[trigger] interface.chain()[k]).text@),
        ensures
            r@.len() == interface.chain().len(),
            forall|k: int| 0 <= k < r@.len() ==> is_vtable_init(self.methods@, interface.chain()[k], #[trigger] r@[k]),
    {
        let chain = interface.iter_chain();
        let ghost sc = interface.chain();
        let mut out: Vec<VTableInit> = Vec::new();
        let mut k: usize = 0;
        while k < chain.len()
            invariant
                k <= chain@.len(),
                chain@.len() == sc.len(),
                sc == interface.chain(),
                forall|q: int| 0 <= q < chain@.len() ==> (#[trigger] chain@[q]).same_as(&sc[q]),
                forall|q: int| 0 <= q < sc.len() ==> (#[trigger] sc[q]).segments@.len() > 0,
                forall|q: int| 0 <= q < sc.len() ==> is_implemented(self.methods@, (#[trigger] sc[q]).text@),
                out@.len() == k,
                forall|q: int| 0 <= q < k ==> is_vtable_init(self.methods@, sc[q], #[trigger] out@[q]),
            decreases chain@.len() - k,
        {
            let p = &chain[k];
            assert(p.same_as(&sc[k as int]));
            let idx = match self.methods_for(p) {
                Some(i) => i,
                None => {
                    proof {
                        assert(is_implemented(self.methods@, sc[k as int].text@));
                    }
                    return out;
                },
            };
            let last = p.last_ident();
            let mut vt = chars_of(last.as_str());
            push_str(&mut vt, "VTable");
            let ms = &self.methods[idx].methods;
            let mut fields: Vec<String> = Vec::new();
            let mut j: usize = 0;
            while j < ms.len()
                invariant
                    j <= ms@.len(),
                    *ms == self.methods@[idx as int].methods,
                    fields@.len() == j,
                    forall|q: int| 0 <= q < j ==> (#[trigger] fields@[q])@ == spec_snake_to_camel(ms@[q].original_ident@),
                decreases ms@.len() - j,
            {
                fields.push(snake_to_camel(ms[j].original_ident.as_str()));
                j = j + 1;
            }
            let init = VTableInit { vtable_ident: string_of(&vt), impl_index: idx, fields };
            assert(is_vtable_init(self.methods@, sc[k as int], init));
            out.push(init);
            k = k + 1;
        }
        out
    }
}

/// A field of the struct generated for a class.
#[derive(Debug, PartialEq, Eq)]
pub enum StructField {
    /// The vtable pointer of the interface chain at `chain`, named `ident`.
    VTablePtr { ident: String, chain: usize },
    /// The reference count, named `ident`.
    RefCount { ident: String },
    /// The user field at `index` of the class.
    User { index: usize },
}

impl<X> Class<X> {
    /// The fields of the struct generated for the class, in order: one
    /// vtable pointer per interface chain, then the reference count, then
    /// the user fields. The constructor initializes them in the same order.
    pub fn struct_fields(&self) -> (r: Vec<StructField>)
        requires
            paths_nonempty(self.interfaces@),
        ensures
            r@.len() == self.interfaces@.len() + 1 + self.fields@.len(),
            forall|k: int| 0 <= k < self.interfaces@.len() ==> (#[trigger] r@[k] matches StructField::VTablePtr { ident, chain }
                && chain == k && ident@ == chain_ident_of(self.interfaces@, k as nat)),
            r@[self.interfaces@.len() as int] matches StructField::RefCount { ident } && ident@ == "__refcnt"@,
            forall|j: int| 0 <= j < self.fields@.len() ==> (#[trigger] r@[self.interfaces@.len() + 1 + j] matches StructField::User { index }
                && index == j),
    {
        let mut r: Vec<StructField> = Vec::new();
        let mut k: usize = 0;
        while k < self.interfaces.len()
            invariant
                k <= self.interfaces@.len(),
                r@.len() == k,
                paths_nonempty(self.interfaces@),
                forall|q: int| 0 <= q < k ==> (#[trigger] r@[q] matches StructField::VTablePtr { ident, chain }
                    && chain == q && ident@ == chain_ident_of(self.interfaces@, q as nat)),
            decreases self.interfaces@.len() - k,
        {
            assert(self.interfaces@[k as int].path.segments@.len() > 0);
            let ident = self.interfaces[k].chain_ident(k);
            r.push(StructField::VTablePtr { ident, chain: k });
            k = k + 1;
        }
        r.push(StructField::RefCount { ident: crate::utils::ref_count_ident() });
        let n = r.len();
        let mut j: usize = 0;
        while j < self.fields.len()
            invariant
                j <= self.fields@.len(),
                n == self.interfaces@.len() + 1,
                r@.len() == n + j,
                forall|q: int| 0 <= q < self.interfaces@.len() ==> (#[trigger] r@[q] matches StructField::VTablePtr { ident, chain }
                    && chain == q && ident@ == chain_ident_of(self.interfaces@, q as nat)),
                r@[self.interfaces@.len() as int] matches StructField::RefCount { ident } && ident@ == "__refcnt"@,
                forall|q: int| 0 <= q < j ==> (#[trigger] r@[n + q] matches StructField::User { index } && index == q),
            decreases self.fields@.len() - j,
        {
            r.push(StructField::User { index: j });
            j = j + 1;
        }
        r
    }
}
} // verus!
