//! COM interface declarations and the rules of their syntax.
use vstd::prelude::*;
use crate::path::PathModel;
use crate::text::{chars_of, decimal, decimal_chars, push_all, push_str, string_of};
use crate::utils::{snake_to_camel, spec_snake_to_camel};
use super::iid::{split_dash, IidError, IID};

verus! {

/// The kind of a method argument's type.
#[derive(Debug, Clone, Copy, PartialEq, Eq)]
pub enum TypeKind {
    Array,
    BareFn,
    Group,
    ImplTrait,
    Infer,
    Macro,
    Never,
    Paren,
    Path,
    Ptr,
    Reference,
    Slice,
    TraitObject,
    Tuple,
    Verbatim,
    Other,
}

/// An argument of an interface method (other than `&self`). `pass_through`
/// arguments are handed to the vtable function as they are, the others
/// through their ABI representation.
#[derive(Debug)]
pub struct InterfaceMethodArg<X> {
    pub ty: X,
    pub pat: X,
    pub pass_through: bool,
    pub ty_kind: TypeKind,
}

/// A method of an interface.
#[derive(Debug)]
pub struct InterfaceMethod<X> {
    pub name: String,
    pub visibility: X,
    pub args: Vec<InterfaceMethodArg<X>>,
    pub ret: X,
    pub docs: Vec<X>,
}

/// A COM interface: its IID, name, the interface it derives from (none for
/// `IUnknown`), its methods and doc attributes.
#[derive(Debug)]
pub struct Interface<X> {
    pub iid: IID,
    pub visibility: X,
    pub name: String,
    pub parent: Option<PathModel>,
    pub methods: Vec<InterfaceMethod<X>>,
    pub docs: Vec<X>,
}

/// The rules of the `interfaces!` macro that a declaration can break. `E`
/// is an error of the syntax reader, passed on unchanged.
#[derive(Debug)]
pub enum InterfaceError<E> {
    /// The tokens of a `uuid` attribute could not be read.
    Syntax(E),
    /// The `uuid` attribute at `index` holds no valid IID.
    Iid { index: usize, error: IidError },
    /// The attribute at `index` is neither `doc` nor `uuid`.
    UnrecognizedAttribute { index: usize, path: PathModel },
    /// The interface has no `uuid` attribute.
    MissingUuid,
    /// An interface other than `IUnknown` names no parent.
    MissingParent { name: String },
    /// The attribute at `index` of a method is no doc attribute.
    UnexpectedAttribute { index: usize },
    UnexpectedDefault,
    UnexpectedAbi,
    UnexpectedAsync,
    UnexpectedGenerics,
    UnexpectedConst,
    /// The method does not take `&self`.
    MissingReceiver,
    UnexpectedVariadic,
    /// The attribute at `attr` of the argument at `arg` is a second
    /// `pass_through`.
    UnexpectedArgAttribute { arg: usize, attr: usize },
}

/// An outer attribute of an interface declaration. `uuid` is what reading
/// its tokens as a parenthesized string literal gave.
#[derive(Debug)]
pub struct InterfaceAttribute<X, E> {
    pub path: PathModel,
    pub uuid: Result<String, E>,
    pub item: X,
}

/// What the attributes of an interface say.
#[derive(Debug)]
pub struct InterfaceAttributes<X> {
    pub docs: Vec<X>,
    pub iid: Option<IID>,
}

pub open spec fn is_doc_attr<X, E>(a: InterfaceAttribute<X, E>) -> bool {
    a.path.spec_is_ident("doc"@)
}

pub open spec fn is_uuid_attr<X, E>(a: InterfaceAttribute<X, E>) -> bool {
    !is_doc_attr(a) && a.path.spec_is_ident("uuid"@)
}

/// The attribute is accepted: a doc attribute, or a `uuid` attribute whose
/// value is a valid IID.
pub open spec fn interface_attr_ok<X, E>(a: InterfaceAttribute<X, E>) -> bool {
    is_doc_attr(a) || (is_uuid_attr(a) && match a.uuid {
        Ok(v) => forall|i: int| 0 <= i < 5 ==> #[trigger] super::iid::part_ok(split_dash(v@), i),
        Err(_) => false,
    })
}

/// The attribute at `f` is the first one not accepted.
pub open spec fn first_bad_interface_attr<X, E>(attrs: Seq<InterfaceAttribute<X, E>>, f: int) -> bool {
    &&& 0 <= f < attrs.len()
    &&& !interface_attr_ok(attrs[f])
    &&& forall|k: int| 0 <= k < f ==> interface_attr_ok(#[trigger] attrs[k])
}

/// The doc items among `attrs`, in order.
pub open spec fn interface_doc_items<X, E>(attrs: Seq<InterfaceAttribute<X, E>>) -> Seq<X>
    decreases attrs.len(),
{
    if attrs.len() == 0 {
        Seq::empty()
    } else if is_doc_attr(attrs.last()) {
        interface_doc_items(attrs.drop_last()).push(attrs.last().item)
    } else {
        interface_doc_items(attrs.drop_last())
    }
}

/// The docs read are exactly the doc attributes among the attributes, all
/// of them, in order.
pub proof fn law_interface_docs<X, E>(attrs: Seq<InterfaceAttribute<X, E>>)
    ensures
        interface_doc_items(attrs) == attrs.filter(|a: InterfaceAttribute<X, E>| is_doc_attr(a)).map_values(
            |a: InterfaceAttribute<X, E>| a.item,
        ),
    decreases attrs.len(),
{
    reveal(Seq::filter);
    if attrs.len() > 0 {
        law_interface_docs(attrs.drop_last());
        let f = attrs.drop_last().filter(|a: InterfaceAttribute<X, E>| is_doc_attr(a));
        if is_doc_attr(attrs.last()) {
            assert(f.push(attrs.last()).map_values(|a: InterfaceAttribute<X, E>| a.item) =~= f.map_values(
                |a: InterfaceAttribute<X, E>| a.item,
            ).push(attrs.last().item));
        }
    }
}

/// The value of the last `uuid` attribute among `attrs`.
pub open spec fn last_uuid<X, E>(attrs: Seq<InterfaceAttribute<X, E>>) -> Option<Seq<char>>
    decreases attrs.len(),
{
    if attrs.len() == 0 {
        None
    } else if is_uuid_attr(attrs.last()) {
        match attrs.last().uuid {
            Ok(v) => Some(v@),
            Err(_) => last_uuid(attrs.drop_last()),
        }
    } else {
        last_uuid(attrs.drop_last())
    }
}

/// The IID is the value of the last `uuid` attribute that was read: a later
/// `uuid` attribute replaces an earlier one, and other attributes do not
/// change it.
pub proof fn law_last_uuid<X, E>(attrs: Seq<InterfaceAttribute<X, E>>, a: InterfaceAttribute<X, E>)
    ensures
        is_uuid_attr(a) && a.uuid is Ok ==> last_uuid(attrs.push(a)) == Some(a.uuid->Ok_0@),
        !is_uuid_attr(a) ==> last_uuid(attrs.push(a)) == last_uuid(attrs),
        last_uuid(Seq::<InterfaceAttribute<X, E>>::empty()) is None,
{
    assert(attrs.push(a).drop_last() =~= attrs);
}

/// The number of `pass_through` attributes counts exactly those paths.
pub proof fn law_pass_through_count(paths: Seq<PathModel>)
    ensures
        pass_through_count(paths) == paths.filter(|p: PathModel| p.spec_is_ident("pass_through"@)).len(),
    decreases paths.len(),
{
    reveal(Seq::filter);
    if paths.len() > 0 {
        law_pass_through_count(paths.drop_last());
    }
}

fn take_first<T>(v: &mut Vec<T>) -> (r: T)
    requires
        old(v)@.len() > 0,
    ensures
        r == old(v)@[0],
        final(v)@ == old(v)@.drop_first(),
{
    v.remove(0)
}

/// Reads the attributes of an interface declaration: doc attributes are
/// kept, a `uuid` attribute gives the IID (a later one replaces an earlier
/// one); anything else is an error at the first such attribute.
#[verifier::loop_isolation(false)]
pub fn interface_attributes<X, E>(attrs: Vec<InterfaceAttribute<X, E>>) -> (r: Result<InterfaceAttributes<X>, InterfaceError<E>>)
    ensures
        r is Ok <==> forall|k: int| 0 <= k < attrs@.len() ==> interface_attr_ok(#[trigger] attrs@[k]),
        r matches Ok(a) ==> {
            &&& a.docs@ == interface_doc_items(attrs@)
            &&& a.iid is Some == last_uuid(attrs@) is Some
            &&& a.iid matches Some(iid) ==> forall|i: int| 0 <= i < 5 ==> (#[trigger] iid.parts@[i])@ == split_dash(last_uuid(attrs@)->0)[i]
        },
        r matches Err(e) ==> exists|f: int| #[trigger] first_bad_interface_attr(attrs@, f) && {
            let a = attrs@[f];
            if is_uuid_attr(a) {
                match a.uuid {
                    Err(se) => e == InterfaceError::Syntax(se),
                    Ok(v) => e matches InterfaceError::Iid { index, error } && index == f && exists|p: int| 0 <= p < 5 && !super::iid::part_ok(split_dash(v@), p) && (forall|i: int| 0 <= i < p ==> #[trigger] super::iid::part_ok(split_dash(v@), i)) && error == super::iid::part_error(split_dash(v@), p),
                }
            } else {
                e == InterfaceError::<E>::UnrecognizedAttribute { index: f as usize, path: a.path }
            }
        },
{
    let ghost orig = attrs@;
    let mut rest = attrs;
    let mut docs: Vec<X> = Vec::new();
    let mut iid: Option<IID> = None;
    let n = rest.len();
    let mut i: usize = 0;
    while i < n
        invariant
            n == orig.len(),
            i <= n,
            rest@ == orig.skip(i as int),
            docs@ == interface_doc_items(orig.take(i as int)),
            iid is Some == last_uuid(orig.take(i as int)) is Some,
            iid matches Some(x) ==> forall|j: int| 0 <= j < 5 ==> (#[trigger] x.parts@[j])@ == split_dash(last_uuid(orig.take(i as int))->0)[j],
            forall|k: int| 0 <= k < i ==> interface_attr_ok(#[trigger] orig[k]),
        decreases n - i,
    {
        let a = take_first(&mut rest);
        assert(a == orig[i as int]);
        assert(orig.take(i + 1).drop_last() =~= orig.take(i as int));
        assert(orig.take(i + 1).last() == a);
        assert(rest@ =~= orig.skip(i + 1));
        let InterfaceAttribute { path, uuid, item } = a;
        if path.is_ident("doc") {
            docs.push(item);
        } else if path.is_ident("uuid") {
            match uuid {
                Err(se) => {
                    assert(first_bad_interface_attr(orig, i as int));
                    return Err(InterfaceError::Syntax(se));
                },
                Ok(v) => {
                    match IID::parse(v.as_str()) {
                        Ok(x) => {
                            iid = Some(x);
                        },
                        Err(ie) => {
                            assert(first_bad_interface_attr(orig, i as int));
                            return Err(InterfaceError::Iid { index: i, error: ie });
                        },
                    }
                },
            }
        } else {
            assert(first_bad_interface_attr(orig, i as int));
            return Err(InterfaceError::UnrecognizedAttribute { index: i, path });
        }
        i = i + 1;
    }
    assert(orig.take(n as int) =~= orig);
    Ok(InterfaceAttributes { docs, iid })
}

/// An interface needs a `uuid` attribute.
pub fn require_iid<E>(iid: Option<IID>) -> (r: Result<IID, InterfaceError<E>>)
    ensures
        iid matches Some(x) ==> r == Ok::<IID, InterfaceError<E>>(x),
        iid is None ==> r == Err::<IID, InterfaceError<E>>(InterfaceError::MissingUuid),
{
    match iid {
        Some(x) => Ok(x),
        None => Err(InterfaceError::MissingUuid),
    }
}

/// Every interface but `IUnknown` must name the interface it derives from.
pub fn needs_parent(name: &str) -> (b: bool)
    ensures
        b == (name@ != "IUnknown"@),
{
    let n = string_of(&chars_of(name));
    let u = string_of(&chars_of("IUnknown"));
    !(n == u)
}

impl<X> Interface<X> {
    /// `IUnknown` is the one interface without a parent.
    pub fn is_iunknown(&self) -> (b: bool)
        ensures
            b == self.parent is None,
    {
        self.parent.is_none()
    }
}

/// The name of the generic type of the argument at `i` of a method wrapper.
pub open spec fn generic_name(i: nat) -> Seq<char> {
    "__"@ + decimal(i)
}

/// The wrapper method generated on an interface struct for one of its
/// methods.
#[derive(Debug)]
pub struct MethodWrapper {
    /// The vtable field it calls: the method's name in camel case.
    pub inner_ident: String,
    /// It takes the lifetime `'a` (the method has arguments).
    pub lifetime: bool,
    /// For each argument, the name of its generic `Into<Param>` type, or
    /// `None` for a `pass_through` argument, which is taken as it is.
    pub generics: Vec<Option<String>>,
}

impl<X> InterfaceMethod<X> {
    /// The shape of the wrapper method: each argument that is not
    /// `pass_through` is taken through a generic type `__<index>`.
    pub fn wrapper(&self) -> (r: MethodWrapper)
        ensures
            r.inner_ident@ == spec_snake_to_camel(self.name@),
            r.lifetime == (self.args@.len() > 0),
            r.generics@.len() == self.args@.len(),
            forall|i: int| 0 <= i < self.args@.len() ==> {
                &&& (#[trigger] self.args@[i]).pass_through ==> r.generics@[i] is None
                &&& !self.args@[i].pass_through ==> (r.generics@[i] matches Some(g) && g@ == generic_name(i as nat))
            },
    {
        let mut generics: Vec<Option<String>> = Vec::new();
        let mut i: usize = 0;
        while i < self.args.len()
            invariant
                i <= self.args@.len(),
                generics@.len() == i,
                forall|k: int| 0 <= k < i ==> {
                    &&& (#[trigger] self.args@[k]).pass_through ==> generics@[k] is None
                    &&& !self.args@[k].pass_through ==> (generics@[k] matches Some(g) && g@ == generic_name(k as nat))
                },
            decreases self.args@.len() - i,
        {
            if self.args[i].pass_through {
                generics.push(None);
            } else {
                let mut g = chars_of("__");
                let d = decimal_chars(i as u128);
                push_all(&mut g, &d);
                generics.push(Some(string_of(&g)));
            }
            i = i + 1;
        }
        MethodWrapper { inner_ident: snake_to_camel(self.name.as_str()), lifetime: self.args.len() > 0, generics }
    }
}

/// An attribute of a method or an argument, as read.
#[derive(Debug)]
pub struct AttrSyntax<X> {
    pub path: PathModel,
    pub item: X,
}

/// An argument of an interface method, as read (receivers excluded).
#[derive(Debug)]
pub struct ArgSyntax<X> {
    pub attr_paths: Vec<PathModel>,
    pub ty: X,
    pub pat: X,
    pub ty_kind: TypeKind,
}

/// A method declaration of an interface, as read: its attributes,
/// visibility, name, what its signature carries, its arguments and return
/// type.
#[derive(Debug)]
pub struct MethodSyntax<X> {
    pub attrs: Vec<AttrSyntax<X>>,
    pub visibility: X,
    pub name: String,
    pub has_default: bool,
    pub has_abi: bool,
    pub has_async: bool,
    pub has_generics: bool,
    pub has_const: bool,
    pub has_receiver: bool,
    pub has_variadic: bool,
    pub args: Vec<ArgSyntax<X>>,
    pub ret: X,
}

/// The number of `pass_through` attributes among `paths`.
pub open spec fn pass_through_count(paths: Seq<PathModel>) -> nat
    decreases paths.len(),
{
    if paths.len() == 0 {
        0
    } else {
        pass_through_count(paths.drop_last()) + if paths.last().spec_is_ident("pass_through"@) { 1nat } else { 0nat }
    }
}

/// The first attribute of a method that is no doc attribute.
pub open spec fn first_non_doc<X>(attrs: Seq<AttrSyntax<X>>, f: int) -> bool {
    &&& 0 <= f < attrs.len()
    &&& !attrs[f].path.spec_is_ident("doc"@)
    &&& forall|k: int| 0 <= k < f ==> (#[trigger] attrs[k]).path.spec_is_ident("doc"@)
}

/// The position of the second `pass_through` attribute among `paths`.
pub open spec fn second_pass_through(paths: Seq<PathModel>, f: int) -> bool {
    &&& 0 <= f < paths.len()
    &&& paths[f].spec_is_ident("pass_through"@)
    &&& pass_through_count(paths.take(f)) == 1
}

/// The argument at `a` is the first one with more than one `pass_through`.
pub open spec fn first_bad_arg<X>(args: Seq<ArgSyntax<X>>, a: int) -> bool {
    &&& 0 <= a < args.len()
    &&& pass_through_count(args[a].attr_paths@) > 1
    &&& forall|k: int| 0 <= k < a ==> pass_through_count((#[trigger] args[k]).attr_paths@) <= 1
}

/// The error of a method declaration, when it has one: the first of the
/// checks, in this order, that fails.
pub open spec fn method_error<X>(m: MethodSyntax<X>) -> Option<InterfaceError<()>> {
    if exists|f: int| #[trigger] first_non_doc(m.attrs@, f) {
        Some(InterfaceError::UnexpectedAttribute { index: (choose|f: int| #[trigger] first_non_doc(m.attrs@, f)) as usize })
    } else if m.has_default {
        Some(InterfaceError::UnexpectedDefault)
    } else if m.has_abi {
        Some(InterfaceError::UnexpectedAbi)
    } else if m.has_async {
        Some(InterfaceError::UnexpectedAsync)
    } else if m.has_generics {
        Some(InterfaceError::UnexpectedGenerics)
    } else if m.has_const {
        Some(InterfaceError::UnexpectedConst)
    } else if !m.has_receiver {
        Some(InterfaceError::MissingReceiver)
    } else if m.has_variadic {
        Some(InterfaceError::UnexpectedVariadic)
    } else if exists|a: int| #[trigger] first_bad_arg(m.args@, a) {
        let a = choose|a: int| #[trigger] first_bad_arg(m.args@, a);
        let f = choose|f: int| #[trigger] second_pass_through(m.args@[a].attr_paths@, f);
        Some(InterfaceError::UnexpectedArgAttribute { arg: a as usize, attr: f as usize })
    } else {
        None
    }
}

/// The same error, for any type of syntax error (these checks give none).
pub open spec fn lift_error<E>(e: InterfaceError<()>) -> InterfaceError<E> {
    match e {
        InterfaceError::UnexpectedAttribute { index } => InterfaceError::UnexpectedAttribute { index },
        InterfaceError::UnexpectedDefault => InterfaceError::UnexpectedDefault,
        InterfaceError::UnexpectedAbi => InterfaceError::UnexpectedAbi,
        InterfaceError::UnexpectedAsync => InterfaceError::UnexpectedAsync,
        InterfaceError::UnexpectedGenerics => InterfaceError::UnexpectedGenerics,
        InterfaceError::UnexpectedConst => InterfaceError::UnexpectedConst,
        InterfaceError::MissingReceiver => InterfaceError::MissingReceiver,
        InterfaceError::UnexpectedVariadic => InterfaceError::UnexpectedVariadic,
        InterfaceError::UnexpectedArgAttribute { arg, attr } => InterfaceError::UnexpectedArgAttribute { arg, attr },
        _ => InterfaceError::MissingUuid,
    }
}

proof fn lemma_pass_through_count_mono(paths: Seq<PathModel>, i: int, j: int)
    requires
        0 <= i <= j <= paths.len(),
    ensures
        pass_through_count(paths.take(i)) <= pass_through_count(paths.take(j)),
    decreases j - i,
{
    if i < j {
        lemma_pass_through_count_mono(paths, i, j - 1);
        assert(paths.take(j).drop_last() =~= paths.take(j - 1));
    }
}

/// Counts the `pass_through` attributes; at the second one, gives its
/// position.
fn check_pass_through(paths: &Vec<PathModel>) -> (r: Result<bool, usize>)
    ensures
        r matches Ok(b) ==> pass_through_count(paths@) <= 1 && b == (pass_through_count(paths@) == 1),
        r matches Err(f) ==> pass_through_count(paths@) > 1 && second_pass_through(paths@, f as int),
{
    let mut count: usize = 0;
    let mut i: usize = 0;
    while i < paths.len()
        invariant
            i <= paths@.len(),
            count == pass_through_count(paths@.take(i as int)),
            count <= 1,
        decreases paths@.len() - i,
    {
        assert(paths@.take(i + 1).drop_last() =~= paths@.take(i as int));
        if paths[i].is_ident("pass_through") {
            if count == 1 {
                proof {
                    lemma_pass_through_count_mono(paths@, i + 1, paths@.len() as int);
                    assert(paths@.take(paths@.len() as int) =~= paths@);
                }
                return Err(i);
            }
            count = count + 1;
        }
        i = i + 1;
    }
    assert(paths@.take(paths@.len() as int) =~= paths@);
    Ok(count == 1)
}

impl<X> InterfaceMethod<X> {
    /// Checks a method declaration: only doc attributes, no default body,
    /// no ABI, `async`, generics, `const` or variadic arguments, a `&self`
    /// receiver, and at most one `pass_through` attribute per argument.
    #[verifier::loop_isolation(false)]
    pub fn from_syntax<E>(m: MethodSyntax<X>) -> (r: Result<InterfaceMethod<X>, InterfaceError<E>>)
        ensures
            method_error(m) matches Some(e) ==> r == Err::<InterfaceMethod<X>, InterfaceError<E>>(lift_error(e)),
            method_error(m) is None ==> r is Ok,
            r matches Ok(im) ==> {
                &&& im.name == m.name
                &&& im.visibility == m.visibility
                &&& im.ret == m.ret
                &&& im.docs@ == m.attrs@.map_values(|a: AttrSyntax<X>| a.item)
                &&& im.args@.len() == m.args@.len()
                &&& forall|k: int| 0 <= k < im.args@.len() ==> {
                    &&& (#[trigger] im.args@[k]).ty == m.args@[k].ty
                    &&& im.args@[k].pat == m.args@[k].pat
                    &&& im.args@[k].ty_kind == m.args@[k].ty_kind
                    &&& im.args@[k].pass_through == (pass_through_count(m.args@[k].attr_paths@) == 1)
                }
            },
    {
        let ghost m0 = m;
        let MethodSyntax {
            attrs,
            visibility,
            name,
            has_default,
            has_abi,
            has_async,
            has_generics,
            has_const,
            has_receiver,
            has_variadic,
            args,
            ret,
        } = m;
        let mut i: usize = 0;
        while i < attrs.len()
            invariant
                i <= attrs@.len(),
                attrs == m0.attrs,
                forall|k: int| 0 <= k < i ==> (#[trigger] attrs@[k]).path.spec_is_ident("doc"@),
            decreases attrs@.len() - i,
        {
            if !attrs[i].path.is_ident("doc") {
                assert(first_non_doc(attrs@, i as int));
                assert forall|f: int| #[trigger] first_non_doc(attrs@, f) implies f == i by {
                    if f < i {
                        assert(attrs@[f].path.spec_is_ident("doc"@));
                    }
                    if f > i {
                        assert(attrs@[i as int].path.spec_is_ident("doc"@));
                    }
                }
                return Err(InterfaceError::UnexpectedAttribute { index: i });
            }
            i = i + 1;
        }
        assert(!exists|f: int| #[trigger] first_non_doc(attrs@, f));
        if has_default {
            return Err(InterfaceError::UnexpectedDefault);
        }
        if has_abi {
            return Err(InterfaceError::UnexpectedAbi);
        }
        if has_async {
            return Err(InterfaceError::UnexpectedAsync);
        }
        if has_generics {
            return Err(InterfaceError::UnexpectedGenerics);
        }
        if has_const {
            return Err(InterfaceError::UnexpectedConst);
        }
        if !has_receiver {
            return Err(InterfaceError::MissingReceiver);
        }
        if has_variadic {
            return Err(InterfaceError::UnexpectedVariadic);
        }
        let ghost oargs = args@;
        let mut rest = args;
        let mut out: Vec<InterfaceMethodArg<X>> = Vec::new();
        let n = rest.len();
        let mut a: usize = 0;
        while a < n
            invariant
                n == oargs.len(),
                a <= n,
                oargs == m0.args@,
                rest@ == oargs.skip(a as int),
                forall|k: int| 0 <= k < a ==> pass_through_count((#[trigger] oargs[k]).attr_paths@) <= 1,
                out@.len() == a,
                forall|k: int| 0 <= k < a ==> {
                    &&& (#[trigger] out@[k]).ty == oargs[k].ty
                    &&& out@[k].pat == oargs[k].pat
                    &&& out@[k].ty_kind == oargs[k].ty_kind
                    &&& out@[k].pass_through == (pass_through_count(oargs[k].attr_paths@) == 1)
                },
            decreases n - a,
        {
            let arg = take_first(&mut rest);
            assert(arg == oargs[a as int]);
            assert(rest@ =~= oargs.skip(a + 1));
            match check_pass_through(&arg.attr_paths) {
                Ok(pass_through) => {
                    let ArgSyntax { attr_paths: _, ty, pat, ty_kind } = arg;
                    out.push(InterfaceMethodArg { ty, pat, pass_through, ty_kind });
                },
                Err(f) => {
                    assert(first_bad_arg(oargs, a as int));
                    assert forall|b: int| #[trigger] first_bad_arg(oargs, b) implies b == a by {
                        if b < a {
                            assert(pass_through_count(oargs[b].attr_paths@) <= 1);
                        }
                        if b > a {
                            assert(pass_through_count(oargs[a as int].attr_paths@) <= 1);
                        }
                    }
                    assert forall|g: int| #[trigger] second_pass_through(oargs[a as int].attr_paths@, g) implies g == f by {
                        let ps = oargs[a as int].attr_paths@;
                        if g < f {
                            lemma_pass_through_count_mono(ps, g + 1, f as int);
                            assert(ps.take(g + 1).drop_last() =~= ps.take(g));
                        }
                        if g > f {
                            lemma_pass_through_count_mono(ps, f + 1, g);
                            assert(ps.take(f + 1).drop_last() =~= ps.take(f as int));
                        }
                    }
                    return Err(InterfaceError::UnexpectedArgAttribute { arg: a, attr: f });
                },
            }
            a = a + 1;
        }
        assert(!exists|b: int| #[trigger] first_bad_arg(oargs, b));
        let mut docs: Vec<X> = Vec::new();
        let ghost oattrs = attrs@;
        let mut arest = attrs;
        let na = arest.len();
        let mut j: usize = 0;
        while j < na
            invariant
                na == oattrs.len(),
                j <= na,
                arest@ == oattrs.skip(j as int),
                docs@ == oattrs.take(j as int).map_values(|x: AttrSyntax<X>| x.item),
            decreases na - j,
        {
            let at = take_first(&mut arest);
            assert(at == oattrs[j as int]);
            assert(arest@ =~= oattrs.skip(j + 1));
            docs.push(at.item);
            j = j + 1;
            assert(docs@ =~= oattrs.take(j as int).map_values(|x: AttrSyntax<X>| x.item));
        }
        assert(oattrs.take(na as int) =~= oattrs);
        Ok(InterfaceMethod { name, visibility, args: out, ret, docs })
    }
}

impl<E> InterfaceError<E> {
    /// The message of an error that these rules give; `None` for a syntax
    /// error, which carries its own.
    pub fn message(&self) -> (r: Option<String>)
        ensures
            r is None <==> self is Syntax,
            self matches InterfaceError::MissingUuid ==> r->0@ == "Interfaces must have a '#[uuid(\"$IID\")]' attribute"@,
            self matches InterfaceError::MissingParent { name } ==> r->0@ == "Interfaces must inherit from another interface like so: `interface "@ + name@ + ": IParentInterface`"@,
            self matches InterfaceError::UnrecognizedAttribute { index, path } ==> r->0@ == "Unrecognized attribute '"@ + path.text@ + "'"@,
            self matches InterfaceError::UnexpectedAttribute { index } ==> r->0@ == "unexpected attribute"@,
            self matches InterfaceError::UnexpectedDefault ==> r->0@ == "unexpected default method implementation"@,
            self matches InterfaceError::UnexpectedAbi ==> r->0@ == "unexpected abi declaration"@,
            self matches InterfaceError::UnexpectedAsync ==> r->0@ == "unexpected async declaration"@,
            self matches InterfaceError::UnexpectedGenerics ==> r->0@ == "unexpected generics declaration"@,
            self matches InterfaceError::UnexpectedConst ==> r->0@ == "unexpected const declaration"@,
            self matches InterfaceError::MissingReceiver ==> r->0@ == "expected the method to have &self as its first argument"@,
            self matches InterfaceError::UnexpectedVariadic ==> r->0@ == "unexpected variadic args"@,
            self matches InterfaceError::UnexpectedArgAttribute { arg, attr } ==> r->0@ == "unexpected function attribute"@,
            self matches InterfaceError::Iid { index, error } ==> r->0@ == error.spec_message(),
    {
        match self {
            InterfaceError::Syntax(_) => None,
            InterfaceError::Iid { index: _, error } => Some(error.message()),
            InterfaceError::UnrecognizedAttribute { index: _, path } => {
                let mut s = chars_of("Unrecognized attribute '");
                push_str(&mut s, path.text.as_str());
                push_str(&mut s, "'");
                Some(string_of(&s))
            },
            InterfaceError::MissingUuid => Some(string_of(&chars_of("Interfaces must have a '#[uuid(\"$IID\")]' attribute"))),
            InterfaceError::MissingParent { name } => {
                let mut s = chars_of("Interfaces must inherit from another interface like so: `interface ");
                push_str(&mut s, name.as_str());
                push_str(&mut s, ": IParentInterface`");
                Some(string_of(&s))
            },
            InterfaceError::UnexpectedAttribute { .. } => Some(string_of(&chars_of("unexpected attribute"))),
            InterfaceError::UnexpectedDefault => Some(string_of(&chars_of("unexpected default method implementation"))),
            InterfaceError::UnexpectedAbi => Some(string_of(&chars_of("unexpected abi declaration"))),
            InterfaceError::UnexpectedAsync => Some(string_of(&chars_of("unexpected async declaration"))),
            InterfaceError::UnexpectedGenerics => Some(string_of(&chars_of("unexpected generics declaration"))),
            InterfaceError::UnexpectedConst => Some(string_of(&chars_of("unexpected const declaration"))),
            InterfaceError::MissingReceiver => Some(string_of(&chars_of("expected the method to have &self as its first argument"))),
            InterfaceError::UnexpectedVariadic => Some(string_of(&chars_of("unexpected variadic args"))),
            InterfaceError::UnexpectedArgAttribute { .. } => Some(string_of(&chars_of("unexpected function attribute"))),
        }
    }
}
} // verus!
