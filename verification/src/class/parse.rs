//! Turning the pieces of a `class!` invocation into a checked `Class`.
//!
//! The caller reads the invocation item by item: the attributes of an item,
//! then either the class declaration or one `impl` block. After each piece
//! it hands what it read to a `ClassParser`, which applies the rules of the
//! macro and reports the first violation.
use vstd::prelude::*;
use crate::path::PathModel;
use crate::text::{chars_of, string_of};
use super::collisions::{
    find_method_name_collisions, flat_entries, flat_idents, in_bounds_for, original_names, rename_all,
    renaming_in_bounds, same_shape,
};
use super::class::{
    chain_of, flat_chains, has_text, Class, Field, Interface, InterfaceImpl, InterfaceMethod,
};

verus! {

/// One element of an attribute's argument list.
#[derive(Debug)]
pub enum NestedMeta {
    /// A bare path, as `Debug` in `derive(Debug)`.
    Path(PathModel),
    /// Anything else (a literal, `a = b`, `a(..)`).
    Other,
}

/// The meaning of an attribute's tokens.
#[derive(Debug)]
pub enum AttrMeta {
    /// `#[path(a, b, ..)]`
    List(Vec<NestedMeta>),
    /// Any other form, or tokens that are no attribute meta at all.
    Other,
}

/// An outer attribute of an item of a `class!` invocation.
#[derive(Debug)]
pub struct ClassAttribute<X> {
    pub path: PathModel,
    pub meta: AttrMeta,
    pub item: X,
}

/// What the attributes of one item say.
#[derive(Debug)]
pub struct ItemAttributes<X> {
    /// The doc attributes, in order.
    pub docs: Vec<X>,
    /// `false` when the item carries `#[no_class_factory]`.
    pub has_class_factory: bool,
}

/// An item of an `impl` block.
#[derive(Debug)]
pub enum ImplItem<X> {
    Method { ident: String, item: X },
    Other,
}

/// The rules of the `class!` macro that an invocation can break.
#[derive(Debug)]
pub enum ClassError {
    /// The attribute at `index` is none of `doc`, `no_class_factory`, `derive`.
    UnrecognizedAttribute { index: usize },
    /// The `derive` attribute at `index` is not exactly `derive(Debug)`.
    UnrecognizedDerive { index: usize },
    /// The interface `path` was named twice.
    InterfaceRedefined { path: PathModel },
    /// An `impl` block without a trait.
    ImplWithoutInterface,
    /// The item at `index` of an `impl` block is not a method.
    NonMethodItem { index: usize },
    /// An `impl` of an interface that the class does not declare.
    NonDeclaredImpl { path: PathModel },
    /// A declared interface without an `impl`.
    MissingImpl { path: PathModel },
    /// The invocation declares no class.
    NoClass,
}

impl ClassError {
    /// The message the macro reports for the error.
    pub fn message(&self) -> (r: String)
        ensures
            self is UnrecognizedAttribute ==> r@ == "Unrecognized attribute"@,
            self is UnrecognizedDerive ==> r@ == "Unrecognized derive attribute"@,
            self is InterfaceRedefined ==> r@ == "interface was redefined"@,
            self is ImplWithoutInterface ==> r@ == "Impl must be for an interface"@,
            self is NonMethodItem ==> r@ == "only trait methods are allowed when implementing an interface"@,
            self is NonDeclaredImpl ==> r@ == "impl for a non-declared interface"@,
            self is MissingImpl ==> r@ == "impl for interface is missing"@,
            self is NoClass ==> r@ == "no class was defined"@,
    {
        let s = match self {
            ClassError::UnrecognizedAttribute { .. } => "Unrecognized attribute",
            ClassError::UnrecognizedDerive { .. } => "Unrecognized derive attribute",
            ClassError::InterfaceRedefined { .. } => "interface was redefined",
            ClassError::ImplWithoutInterface => "Impl must be for an interface",
            ClassError::NonMethodItem { .. } => "only trait methods are allowed when implementing an interface",
            ClassError::NonDeclaredImpl { .. } => "impl for a non-declared interface",
            ClassError::MissingImpl { .. } => "impl for interface is missing",
            ClassError::NoClass => "no class was defined",
        };
        string_of(&chars_of(s))
    }
}

/// The kinds of attribute a class item can carry.
pub enum ClassAttrKind {
    Doc,
    NoClassFactory,
    DeriveDebug,
    BadDerive,
    Unrecognized,
}

/// `derive(Debug)`, and nothing else.
pub open spec fn is_derive_debug(meta: AttrMeta) -> bool {
    match meta {
        AttrMeta::List(l) => l@.len() == 1 && match l@[0] {
            NestedMeta::Path(p) => p.spec_is_ident("Debug"@),
            NestedMeta::Other => false,
        },
        AttrMeta::Other => false,
    }
}

pub open spec fn class_attr_kind<X>(a: ClassAttribute<X>) -> ClassAttrKind {
    if a.path.spec_is_ident("doc"@) {
        ClassAttrKind::Doc
    } else if a.path.spec_is_ident("no_class_factory"@) {
        ClassAttrKind::NoClassFactory
    } else if a.path.spec_is_ident("derive"@) {
        if is_derive_debug(a.meta) {
            ClassAttrKind::DeriveDebug
        } else {
            ClassAttrKind::BadDerive
        }
    } else {
        ClassAttrKind::Unrecognized
    }
}

pub open spec fn is_bad_attr<X>(a: ClassAttribute<X>) -> bool {
    class_attr_kind(a) is BadDerive || class_attr_kind(a) is Unrecognized
}

/// The items of the doc attributes among `attrs`, in order.
pub open spec fn doc_items<X>(attrs: Seq<ClassAttribute<X>>) -> Seq<X>
    decreases attrs.len(),
{
    if attrs.len() == 0 {
        Seq::empty()
    } else if class_attr_kind(attrs.last()) is Doc {
        doc_items(attrs.drop_last()).push(attrs.last().item)
    } else {
        doc_items(attrs.drop_last())
    }
}

/// The docs of an item are exactly its doc attributes, all of them, in
/// order.
pub proof fn law_class_docs<X>(attrs: Seq<ClassAttribute<X>>)
    ensures
        doc_items(attrs) == attrs.filter(|a: ClassAttribute<X>| a.path.spec_is_ident("doc"@)).map_values(
            |a: ClassAttribute<X>| a.item,
        ),
    decreases attrs.len(),
{
    reveal(Seq::filter);
    if attrs.len() > 0 {
        law_class_docs(attrs.drop_last());
        let f = attrs.drop_last().filter(|a: ClassAttribute<X>| a.path.spec_is_ident("doc"@));
        if attrs.last().path.spec_is_ident("doc"@) {
            assert(f.push(attrs.last()).map_values(|a: ClassAttribute<X>| a.item) =~= f.map_values(
                |a: ClassAttribute<X>| a.item,
            ).push(attrs.last().item));
        }
    }
}

/// The attribute at `f` is the first one that is not accepted.
pub open spec fn first_bad_attr<X>(attrs: Seq<ClassAttribute<X>>, f: int) -> bool {
    &&& 0 <= f < attrs.len()
    &&& is_bad_attr(attrs[f])
    &&& forall|k: int| 0 <= k < f ==> !is_bad_attr(#[trigger] attrs[k])
}

/// The error that the first bad attribute, at `f`, gives.
pub open spec fn attr_error<X>(attrs: Seq<ClassAttribute<X>>, f: int) -> ClassError {
    if class_attr_kind(attrs[f]) is BadDerive {
        ClassError::UnrecognizedDerive { index: f as usize }
    } else {
        ClassError::UnrecognizedAttribute { index: f as usize }
    }
}

/// The methods of an `impl` block, each under its own name.
pub open spec fn impl_methods<X>(items: Seq<ImplItem<X>>) -> Seq<InterfaceMethod<X>> {
    items.map_values(
        |i: ImplItem<X>|
            match i {
                ImplItem::Method { ident, item } => InterfaceMethod {
                    item,
                    ident,
                    original_ident: ident,
                },
                ImplItem::Other => arbitrary(),
            },
    )
}

/// Takes the first element out of a vector.
fn take_first<T>(v: &mut Vec<T>) -> (r: T)
    requires
        old(v)@.len() > 0,
    ensures
        r == old(v)@[0],
        final(v)@ == old(v)@.drop_first(),
{
    v.remove(0)
}

/// Adds a new interface chain to the interfaces of a class declaration;
/// naming an interface twice is an error.
pub fn push_interface(interfaces: &mut Vec<Interface>, path: PathModel) -> (r: Result<(), ClassError>)
    ensures
        r is Ok <==> forall|k: int| 0 <= k < old(interfaces)@.len() ==> (#[trigger] old(interfaces)@[k]).path.text@ != path.text@,
        r is Ok ==> final(interfaces)@ == old(interfaces)@.push(Interface { path, parent: None }),
        r matches Err(e) ==> e == (ClassError::InterfaceRedefined { path }) && final(interfaces)@ == old(interfaces)@,
{
    let mut i: usize = 0;
    while i < interfaces.len()
        invariant
            i <= interfaces@.len(),
            interfaces@ == old(interfaces)@,
            forall|k: int| 0 <= k < i ==> (#[trigger] interfaces@[k]).path.text@ != path.text@,
        decreases interfaces@.len() - i,
    {
        if interfaces[i].path.text == path.text {
            return Err(ClassError::InterfaceRedefined { path });
        }
        i = i + 1;
    }
    interfaces.push(Interface { path, parent: None });
    Ok(())
}

/// The state of reading a `class!` invocation.
#[derive(Debug)]
pub struct ClassParser<X> {
    /// The class declaration read last.
    pub class: Option<Class<X>>,
    /// The `impl` blocks read so far.
    pub methods: Vec<InterfaceImpl<X>>,
    /// A `#[derive(Debug)]` was seen.
    pub impl_debug: bool,
}

impl<X> ClassParser<X> {
    pub fn new() -> (r: ClassParser<X>)
        ensures
            r.class is None,
            r.methods@.len() == 0,
            impls_distinct(r.methods@),
            !r.impl_debug,
    {
        ClassParser { class: None, methods: Vec::new(), impl_debug: false }
    }

    /// Reads the attributes of one item: doc attributes are kept,
    /// `no_class_factory` turns the class factory off, `derive(Debug)`
    /// requests a `Debug` impl; anything else is an error at the first such
    /// attribute.
    #[verifier::loop_isolation(false)]
    pub fn attributes(&mut self, attrs: Vec<ClassAttribute<X>>) -> (r: Result<ItemAttributes<X>, ClassError>)
        ensures
            r is Ok ==> forall|k: int| 0 <= k < attrs@.len() ==> !is_bad_attr(#[trigger] attrs@[k]),
            r matches Ok(a) ==> {
                &&& a.docs@ == doc_items(attrs@)
                &&& a.has_class_factory == !exists|k: int| 0 <= k < attrs@.len() && class_attr_kind(#[trigger] attrs@[k]) is NoClassFactory
                &&& final(self).impl_debug == (old(self).impl_debug || exists|k: int| 0 <= k < attrs@.len() && class_attr_kind(#[trigger] attrs@[k]) is DeriveDebug)
            },
            r matches Err(e) ==> exists|f: int| #[trigger] first_bad_attr(attrs@, f) && e == attr_error(attrs@, f),
            final(self).class == old(self).class,
            final(self).methods == old(self).methods,
    {
        let ghost orig = attrs@;
        let mut rest = attrs;
        let mut docs: Vec<X> = Vec::new();
        let mut has_class_factory = true;
        let n = rest.len();
        let mut i: usize = 0;
        while i < n
            invariant
                n == orig.len(),
                i <= n,
                rest@ == orig.skip(i as int),
                docs@ == doc_items(orig.take(i as int)),
                has_class_factory == !exists|k: int| 0 <= k < i && class_attr_kind(#[trigger] orig[k]) is NoClassFactory,
                self.impl_debug == (old(self).impl_debug || exists|k: int| 0 <= k < i && class_attr_kind(#[trigger] orig[k]) is DeriveDebug),
                forall|k: int| 0 <= k < i ==> !is_bad_attr(#[trigger] orig[k]),
                self.class == old(self).class,
                self.methods == old(self).methods,
            decreases n - i,
        {
            let a = take_first(&mut rest);
            assert(a == orig[i as int]);
            assert(orig.take(i + 1).drop_last() =~= orig.take(i as int));
            assert(rest@ =~= orig.skip(i + 1));
            if a.path.is_ident("doc") {
                docs.push(a.item);
            } else if a.path.is_ident("no_class_factory") {
                has_class_factory = false;
            } else if a.path.is_ident("derive") {
                let ok = match &a.meta {
                    AttrMeta::List(l) => {
                        if l.len() == 1 {
                            match &l[0] {
                                NestedMeta::Path(p) => p.is_ident("Debug"),
                                NestedMeta::Other => false,
                            }
                        } else {
                            false
                        }
                    },
                    AttrMeta::Other => false,
                };
                assert(ok == is_derive_debug(a.meta));
                if !ok {
                    assert(first_bad_attr(orig, i as int));
                    return Err(ClassError::UnrecognizedDerive { index: i });
                }
                self.impl_debug = true;
            } else {
                assert(first_bad_attr(orig, i as int));
                return Err(ClassError::UnrecognizedAttribute { index: i });
            }
            i = i + 1;
        }
        assert(orig.take(n as int) =~= orig);
        Ok(ItemAttributes { docs, has_class_factory })
    }

    /// Records a class declaration; a later declaration replaces an earlier
    /// one.
    pub fn class_declared(
        &mut self,
        name: String,
        has_class_factory: bool,
        docs: Vec<X>,
        visibility: X,
        interfaces: Vec<Interface>,
        fields: Vec<Field<X>>,
    )
        ensures
            final(self).class matches Some(c) && {
                &&& c.name == name
                &&& c.has_class_factory == has_class_factory
                &&& c.docs == docs
                &&& c.visibility == visibility
                &&& c.interfaces == interfaces
                &&& c.methods@.len() == 0
                &&& c.fields == fields
                &&& !c.impl_debug
            },
            final(self).methods == old(self).methods,
            final(self).impl_debug == old(self).impl_debug,
    {
        self.class = Some(Class {
            name,
            has_class_factory,
            docs,
            visibility,
            interfaces,
            methods: Vec::new(),
            fields,
            impl_debug: false,
        });
    }
}


/// The interface of an `impl` is one of the declared interface chains.
pub open spec fn is_declared(flat: Seq<PathModel>, t: Seq<char>) -> bool {
    has_text(flat, t)
}

/// Some `impl` block implements the interface with text `t`.
pub open spec fn is_implemented<X>(impls: Seq<InterfaceImpl<X>>, t: Seq<char>) -> bool {
    exists|i: int| 0 <= i < impls.len() && (#[trigger] impls[i]).path.text@ == t
}

/// The item at `f` is the first item of an `impl` block that is no method.
pub open spec fn first_non_method<X>(items: Seq<ImplItem<X>>, f: int) -> bool {
    &&& 0 <= f < items.len()
    &&& items[f] is Other
    &&& forall|k: int| 0 <= k < f ==> (#[trigger] items[k]) is Method
}

/// The `impl` at `f` is the first one of an interface the class does not
/// declare.
pub open spec fn first_undeclared<X>(impls: Seq<InterfaceImpl<X>>, flat: Seq<PathModel>, f: int) -> bool {
    &&& 0 <= f < impls.len()
    &&& !is_declared(flat, impls[f].path.text@)
    &&& forall|k: int| 0 <= k < f ==> is_declared(flat, (#[trigger] impls[k]).path.text@)
}

/// The chain member at `f` is the first declared interface without an
/// `impl`.
pub open spec fn first_unimplemented<X>(impls: Seq<InterfaceImpl<X>>, flat: Seq<PathModel>, f: int) -> bool {
    &&& 0 <= f < flat.len()
    &&& !is_implemented(impls, flat[f].text@)
    &&& forall|k: int| 0 <= k < f ==> is_implemented(impls, (#[trigger] flat[k]).text@)
}

/// No two `impl` blocks are of the same interface.
pub open spec fn impls_distinct<X>(impls: Seq<InterfaceImpl<X>>) -> bool {
    forall|i: int, j: int| 0 <= i < j < impls.len() ==>
        (#[trigger] impls[i]).path.text@ != (#[trigger] impls[j]).path.text@
}

/// A class that `finish` accepts from `impl` blocks read by `add_impl` has
/// exactly one `impl` for each interface of its chains.
pub proof fn law_one_impl_per_interface<X>(impls: Seq<InterfaceImpl<X>>, flat: Seq<PathModel>, k: int)
    requires
        impls_distinct(impls),
        impls_match(impls, flat),
        0 <= k < flat.len(),
    ensures
        exists|i: int| 0 <= i < impls.len() && (#[trigger] impls[i]).path.text@ == flat[k].text@,
        forall|i: int, j: int| 0 <= i < impls.len() && 0 <= j < impls.len()
            && (#[trigger] impls[i]).path.text@ == flat[k].text@
            && (#[trigger] impls[j]).path.text@ == flat[k].text@ ==> i == j,
{
    assert(is_implemented(impls, flat[k].text@));
    assert forall|i: int, j: int| 0 <= i < impls.len() && 0 <= j < impls.len()
        && (#[trigger] impls[i]).path.text@ == flat[k].text@
        && (#[trigger] impls[j]).path.text@ == flat[k].text@ implies i == j by {
        if i < j {
            assert(impls[i].path.text@ != impls[j].path.text@);
        } else if j < i {
            assert(impls[j].path.text@ != impls[i].path.text@);
        }
    }
}

/// `p` is one of the flattened chains of `ifs`.
pub open spec fn in_flat(ifs: Seq<Interface>, p: PathModel) -> bool {
    exists|m: int| 0 <= m < flat_chains(ifs).len() && #[trigger] flat_chains(ifs)[m] == p
}

proof fn lemma_chain_in_flat(ifs: Seq<Interface>, i: int)
    requires
        0 <= i < ifs.len(),
    ensures
        forall|k: int| 0 <= k < chain_of(ifs[i]).len() ==> in_flat(ifs, #[trigger] chain_of(ifs[i])[k]),
    decreases ifs.len(),
{
    let d = ifs.drop_last();
    let f = flat_chains(ifs);
    assert(f == flat_chains(d) + chain_of(ifs.last()));
    if i < ifs.len() - 1 {
        lemma_chain_in_flat(d, i);
        assert(d[i] == ifs[i]);
        assert forall|k: int| 0 <= k < chain_of(ifs[i]).len() implies in_flat(ifs, #[trigger] chain_of(ifs[i])[k]) by {
            assert(in_flat(d, chain_of(d[i])[k]));
            let m = choose|m: int| 0 <= m < flat_chains(d).len() && #[trigger] flat_chains(d)[m] == chain_of(d[i])[k];
            assert(f[m] == flat_chains(d)[m]);
        }
    } else {
        assert forall|k: int| 0 <= k < chain_of(ifs[i]).len() implies in_flat(ifs, #[trigger] chain_of(ifs[i])[k]) by {
            let m = flat_chains(d).len() + k;
            assert(f[m] == chain_of(ifs.last())[k]);
        }
    }
}

/// Every member of every chain of a class that `finish` accepts has an
/// `impl` block, so the class can fill all of its vtables.
pub proof fn law_accepted_class_fills_vtables<X>(impls: Seq<InterfaceImpl<X>>, ifs: Seq<Interface>, i: int)
    requires
        impls_match(impls, flat_chains(ifs)),
        0 <= i < ifs.len(),
    ensures
        forall|k: int| 0 <= k < ifs[i].chain().len() ==> is_implemented(impls, (#[trigger] ifs[i].chain()[k]).text@),
{
    lemma_chain_in_flat(ifs, i);
    assert forall|k: int| 0 <= k < ifs[i].chain().len() implies is_implemented(impls, (#[trigger] ifs[i].chain()[k]).text@) by {
        let f = flat_chains(ifs);
        assert(in_flat(ifs, chain_of(ifs[i])[k]));
        let m = choose|m: int| 0 <= m < f.len() && #[trigger] f[m] == chain_of(ifs[i])[k];
        assert(is_implemented(impls, f[m].text@));
    }
}

/// Every `impl` is of a declared interface, and every declared interface has
/// an `impl`.
pub open spec fn impls_match<X>(impls: Seq<InterfaceImpl<X>>, flat: Seq<PathModel>) -> bool {
    &&& forall|i: int| 0 <= i < impls.len() ==> is_declared(flat, (#[trigger] impls[i]).path.text@)
    &&& forall|k: int| 0 <= k < flat.len() ==> is_implemented(impls, (#[trigger] flat[k]).text@)
}

/// The chains of `ifs`, flattened, as copies.
pub fn flatten_chains(ifs: &Vec<Interface>) -> (r: Vec<PathModel>)
    ensures
        r@.len() == flat_chains(ifs@).len(),
        forall|k: int| 0 <= k < r@.len() ==> (#[trigger] r@[k]).same_as(&flat_chains(ifs@)[k]),
{
    let mut r: Vec<PathModel> = Vec::new();
    let mut i: usize = 0;
    while i < ifs.len()
        invariant
            i <= ifs@.len(),
            r@.len() == flat_chains(ifs@.take(i as int)).len(),
            forall|k: int| 0 <= k < r@.len() ==> (#[trigger] r@[k]).same_as(&flat_chains(ifs@.take(i as int))[k]),
        decreases ifs@.len() - i,
    {
        let ghost prev = flat_chains(ifs@.take(i as int));
        let chain = ifs[i].iter_chain();
        assert(ifs@.take(i + 1).drop_last() =~= ifs@.take(i as int));
        assert(flat_chains(ifs@.take(i + 1)) == prev + chain_of(ifs@[i as int]));
        let mut j: usize = 0;
        while j < chain.len()
            invariant
                j <= chain@.len(),
                chain@.len() == chain_of(ifs@[i as int]).len(),
                forall|k: int| 0 <= k < chain@.len() ==> (#[trigger] chain@[k]).same_as(&chain_of(ifs@[i as int])[k]),
                r@.len() == prev.len() + j,
                forall|k: int| 0 <= k < prev.len() ==> (#[trigger] r@[k]).same_as(&prev[k]),
                forall|k: int| prev.len() <= k < r@.len() ==> (#[trigger] r@[k]).same_as(&chain_of(ifs@[i as int])[k - prev.len()]),
            decreases chain@.len() - j,
        {
            r.push(chain[j].duplicate());
            j = j + 1;
        }
        i = i + 1;
    }
    assert(ifs@.take(ifs@.len() as int) =~= ifs@);
    r
}

fn has_text_exec(paths: &Vec<PathModel>, t: &String) -> (b: bool)
    ensures
        b == has_text(paths@, t@),
{
    let mut k: usize = 0;
    while k < paths.len()
        invariant
            k <= paths@.len(),
            forall|j: int| 0 <= j < k ==> (#[trigger] paths@[j]).text@ != t@,
        decreases paths@.len() - k,
    {
        if paths[k].text == *t {
            return true;
        }
        k = k + 1;
    }
    false
}

fn is_implemented_exec<X>(impls: &Vec<InterfaceImpl<X>>, t: &String) -> (b: bool)
    ensures
        b == is_implemented(impls@, t@),
{
    let mut k: usize = 0;
    while k < impls.len()
        invariant
            k <= impls@.len(),
            forall|j: int| 0 <= j < k ==> (#[trigger] impls@[j]).path.text@ != t@,
        decreases impls@.len() - k,
    {
        if impls[k].path.text == *t {
            return true;
        }
        k = k + 1;
    }
    false
}

/// What `finish` gives for the reading `p`.
pub open spec fn finish_outcome<X>(p: ClassParser<X>, r: Result<Class<X>, ClassError>) -> bool {
    &&& (p.class is None ==> r == Err::<Class<X>, ClassError>(ClassError::NoClass))
    &&& (p.class matches Some(c) ==> {
                let flat = flat_chains(c.interfaces@);
                &&& r matches Err(ClassError::NonDeclaredImpl { path }) ==> exists|f: int| #[trigger] first_undeclared(p.methods@, flat, f) && path == p.methods@[f].path
                &&& r matches Err(ClassError::MissingImpl { path }) ==> (forall|i: int| 0 <= i < p.methods@.len() ==> is_declared(flat, (#[trigger] p.methods@[i]).path.text@)) && exists|f: int| #[trigger] first_unimplemented(p.methods@, flat, f) && path.same_as(&flat[f])
                &&& r matches Err(e) ==> (e is NonDeclaredImpl || e is MissingImpl)
                &&& r is Ok <==> impls_match(p.methods@, flat)
                &&& r matches Ok(k) ==> {
                    &&& k.name == c.name
                    &&& k.has_class_factory == c.has_class_factory
                    &&& k.docs == c.docs
                    &&& k.visibility == c.visibility
                    &&& k.interfaces == c.interfaces
                    &&& k.fields == c.fields
                    &&& k.methods == p.methods
                    &&& k.impl_debug == p.impl_debug
                }
            })
}

/// The reading is accepted: a class was declared, and its chains and its
/// `impl` blocks match.
pub open spec fn accepted<X>(p: ClassParser<X>) -> bool {
    &&& p.class is Some
    &&& impls_match(p.methods@, flat_chains(p.class->0.interfaces@))
}

impl<X> ClassParser<X> {
    /// Reads one `impl` block: it must be the `impl` of an interface, hold
    /// methods only, and be the only `impl` of that interface.
    #[verifier::loop_isolation(false)]
    pub fn add_impl(&mut self, trait_path: Option<PathModel>, items: Vec<ImplItem<X>>) -> (r: Result<(), ClassError>)
        ensures
            trait_path is None ==> r == Err::<(), ClassError>(ClassError::ImplWithoutInterface),
            trait_path matches Some(p) ==> {
                &&& (exists|f: int| #[trigger] first_non_method(items@, f)) ==> exists|f: int| #[trigger] first_non_method(items@, f) && r == Err::<(), ClassError>(ClassError::NonMethodItem { index: f as usize })
                &&& (forall|k: int| 0 <= k < items@.len() ==> (#[trigger] items@[k]) is Method) ==> {
                    if is_implemented(old(self).methods@, p.text@) {
                        r == Err::<(), ClassError>(ClassError::InterfaceRedefined { path: p })
                    } else {
                        &&& r is Ok
                        &&& final(self).methods@.len() == old(self).methods@.len() + 1
                        &&& final(self).methods@.drop_last() == old(self).methods@
                        &&& final(self).methods@.last().path == p
                        &&& final(self).methods@.last().methods@ == impl_methods(items@)
                    }
                }
            },
            r is Err ==> final(self).methods == old(self).methods,
            impls_distinct(old(self).methods@) ==> impls_distinct(final(self).methods@),
            final(self).class == old(self).class,
            final(self).impl_debug == old(self).impl_debug,
    {
        let p = match trait_path {
            Some(p) => p,
            None => {
                return Err(ClassError::ImplWithoutInterface);
            },
        };
        let ghost orig = items@;
        let mut rest = items;
        let mut ms: Vec<InterfaceMethod<X>> = Vec::new();
        let n = rest.len();
        let mut i: usize = 0;
        while i < n
            invariant
                n == orig.len(),
                i <= n,
                rest@ == orig.skip(i as int),
                forall|k: int| 0 <= k < i ==> (#[trigger] orig[k]) is Method,
                ms@ == impl_methods(orig.take(i as int)),
                self.class == old(self).class,
                self.methods == old(self).methods,
                self.impl_debug == old(self).impl_debug,
            decreases n - i,
        {
            let it = take_first(&mut rest);
            assert(it == orig[i as int]);
            assert(rest@ =~= orig.skip(i + 1));
            match it {
                ImplItem::Method { ident, item } => {
                    let original_ident = ident.clone();
                    ms.push(InterfaceMethod { item, ident, original_ident });
                    assert(ms@ =~= impl_methods(orig.take(i + 1)));
                },
                ImplItem::Other => {
                    assert(first_non_method(orig, i as int));
                    assert forall|f: int| #[trigger] first_non_method(orig, f) implies f == i by {
                        if f < i {
                            assert(orig[f] is Method);
                        }
                        if f > i {
                            assert(orig[i as int] is Method);
                        }
                    }
                    return Err(ClassError::NonMethodItem { index: i });
                },
            }
            i = i + 1;
        }
        assert(orig.take(n as int) =~= orig);
        assert forall|f: int| !(#[trigger] first_non_method(orig, f)) by {
            if 0 <= f < n {
                assert(orig[f] is Method);
            }
        }
        if is_implemented_exec(&self.methods, &p.text) {
            return Err(ClassError::InterfaceRedefined { path: p });
        }
        self.methods.push(InterfaceImpl { path: p, methods: ms });
        Ok(())
    }

    /// Ends the reading: a class must have been declared, every `impl` must
    /// be of an interface of its chains, and every interface of its chains
    /// must have an `impl`. The checked class carries the `impl` blocks and
    /// the `derive(Debug)` request.
    #[verifier::loop_isolation(false)]
    pub fn finish(self) -> (r: Result<Class<X>, ClassError>)
        ensures
            finish_outcome(self, r),
    {
        let ClassParser { class, methods, impl_debug } = self;
        let mut c = match class {
            Some(c) => c,
            None => {
                return Err(ClassError::NoClass);
            },
        };
        let flat = flatten_chains(&c.interfaces);
        let ghost sflat = flat_chains(c.interfaces@);
        assert forall|t: Seq<char>| has_text(flat@, t) <==> is_declared(sflat, t) by {
            if has_text(flat@, t) {
                let k = choose|k: int| 0 <= k < flat@.len() && (#[trigger] flat@[k]).text@ == t;
                assert(flat@[k].same_as(&sflat[k]));
            }
            if is_declared(sflat, t) {
                let k = choose|k: int| 0 <= k < sflat.len() && (#[trigger] sflat[k]).text@ == t;
                assert(flat@[k].same_as(&sflat[k]));
            }
        }
        let mut i: usize = 0;
        while i < methods.len()
            invariant
                i <= methods@.len(),
                forall|k: int| 0 <= k < i ==> is_declared(sflat, (#[trigger] methods@[k]).path.text@),
            decreases methods@.len() - i,
        {
            if !has_text_exec(&flat, &methods[i].path.text) {
                assert(first_undeclared(methods@, sflat, i as int));
                let mut methods = methods;
                let m = methods.remove(i);
                return Err(ClassError::NonDeclaredImpl { path: m.path });
            }
            i = i + 1;
        }
        let mut k: usize = 0;
        while k < flat.len()
            invariant
                k <= flat@.len(),
                forall|j: int| 0 <= j < k ==> is_implemented(methods@, (#[trigger] sflat[j]).text@),
            decreases flat@.len() - k,
        {
            assert(flat@[k as int].same_as(&sflat[k as int]));
            if !is_implemented_exec(&methods, &flat[k].text) {
                assert(first_unimplemented(methods@, sflat, k as int));
                return Err(ClassError::MissingImpl { path: flat[k].duplicate() });
            }
            k = k + 1;
        }
        c.methods = methods;
        c.impl_debug = impl_debug;
        Ok(c)
    }

    /// Whether the reading is accepted (see `finish`).
    #[verifier::loop_isolation(false)]
    fn accepts(&self) -> (b: bool)
        ensures
            b == accepted(*self),
    {
        let c = match &self.class {
            Some(c) => c,
            None => {
                return false;
            },
        };
        let flat = flatten_chains(&c.interfaces);
        let ghost sflat = flat_chains(c.interfaces@);
        assert forall|t: Seq<char>| has_text(flat@, t) <==> is_declared(sflat, t) by {
            if has_text(flat@, t) {
                let k = choose|k: int| 0 <= k < flat@.len() && (#[trigger] flat@[k]).text@ == t;
                assert(flat@[k].same_as(&sflat[k]));
            }
            if is_declared(sflat, t) {
                let k = choose|k: int| 0 <= k < sflat.len() && (#[trigger] sflat[k]).text@ == t;
                assert(flat@[k].same_as(&sflat[k]));
            }
        }
        let mut i: usize = 0;
        while i < self.methods.len()
            invariant
                i <= self.methods@.len(),
                forall|k: int| 0 <= k < i ==> is_declared(sflat, (#[trigger] self.methods@[k]).path.text@),
            decreases self.methods@.len() - i,
        {
            if !has_text_exec(&flat, &self.methods[i].path.text) {
                assert(!is_declared(sflat, self.methods@[i as int].path.text@));
                return false;
            }
            i = i + 1;
        }
        let mut k: usize = 0;
        while k < flat.len()
            invariant
                k <= flat@.len(),
                flat@.len() == sflat.len(),
                forall|q: int| 0 <= q < flat@.len() ==> (#[trigger] flat@[q]).same_as(&sflat[q]),
                forall|j: int| 0 <= j < k ==> is_implemented(self.methods@, (#[trigger] sflat[j]).text@),
            decreases flat@.len() - k,
        {
            assert(flat@[k as int].same_as(&sflat[k as int]));
            if !is_implemented_exec(&self.methods, &flat[k].text) {
                assert(!is_implemented(self.methods@, sflat[k as int].text@));
                return false;
            }
            k = k + 1;
        }
        true
    }

    /// Whether `finish_renamed` can be called: when the reading is accepted,
    /// the renaming of its methods is defined and stays within the
    /// counter's range.
    pub fn renaming_possible(&self) -> (b: bool)
        ensures
            b == (accepted(*self) ==> renaming_in_bounds(self.methods@)),
    {
        !self.accepts() || in_bounds_for(&self.methods)
    }

    /// Ends the reading as `finish` does, then renames the methods whose
    /// names collide (`find_method_name_collisions`): the class as the
    /// `class!` macro expands it.
    pub fn finish_renamed(self) -> (r: Result<Class<X>, ClassError>)
        requires
            accepted(self) ==> renaming_in_bounds(self.methods@),
        ensures
            r is Ok <==> accepted(self),
            r is Err ==> finish_outcome(self, r),
            r matches Ok(k) ==> {
                let c = self.class->0;
                let all = flat_entries(self.methods@);
                &&& k.name == c.name
                &&& k.has_class_factory == c.has_class_factory
                &&& k.docs == c.docs
                &&& k.visibility == c.visibility
                &&& k.interfaces == c.interfaces
                &&& k.fields == c.fields
                &&& k.impl_debug == self.impl_debug
                &&& same_shape(k.methods@, self.methods@)
                &&& flat_idents(k.methods@) == rename_all(original_names(all), all).0
                &&& (forall|q: int| 0 <= q < all.len() ==> (#[trigger] all[q]).current == all[q].original)
                    ==> forall|i: int, j: int| 0 <= i < j < flat_idents(k.methods@).len() ==>
                        #[trigger] flat_idents(k.methods@)[i] != #[trigger] flat_idents(k.methods@)[j]
            },
    {
        let ghost p = self;
        match self.finish() {
            Ok(c) => {
                let mut c = c;
                find_method_name_collisions(&mut c);
                Ok(c)
            },
            Err(e) => Err(e),
        }
    }
}
} // verus!
