//! The vtable of an interface: one function pointer per method, each taking
//! the interface pointer and then the method's arguments in their raw form.
use vstd::prelude::*;
use crate::text::{chars_of, push_str, string_of};
use crate::utils::{snake_to_camel, spec_snake_to_camel};
use super::interface::{Interface, InterfaceMethod, InterfaceMethodArg, TypeKind};

verus! {

/// The name of the vtable struct of an interface: its name followed by
/// `VTable`.
pub fn ident(interface_name: &str) -> (r: String)
    ensures
        r@ == interface_name@ + "VTable"@,
{
    let mut s = chars_of(interface_name);
    push_str(&mut s, "VTable");
    string_of(&s)
}

/// How an argument is passed to a vtable function.
#[derive(Debug, Clone, Copy, PartialEq, Eq)]
pub enum RawParam {
    /// As `<T as ::com::AbiTransferable>::Abi`.
    Abi,
    /// As its own type `T` (a `pass_through` argument).
    Plain,
}

/// How an argument of a type of kind `kind` is passed, if it can be: only
/// path and pointer types can.
pub open spec fn spec_raw_param(kind: TypeKind, pass_through: bool) -> Option<RawParam> {
    match kind {
        TypeKind::Path | TypeKind::Ptr => Some(if pass_through { RawParam::Plain } else { RawParam::Abi }),
        _ => None,
    }
}

/// Path and pointer types are passed alike: plainly exactly when the
/// argument is marked `pass_through`, through their ABI form otherwise; no
/// other kind of type can be passed.
pub proof fn law_raw_param(kind: TypeKind, pass_through: bool)
    ensures
        spec_raw_param(kind, pass_through) is Some <==> (kind is Path || kind is Ptr),
        spec_raw_param(TypeKind::Ptr, pass_through) == spec_raw_param(TypeKind::Path, pass_through),
        spec_raw_param(kind, pass_through) is Some ==>
            (spec_raw_param(kind, pass_through) == Some(RawParam::Plain) <==> pass_through),
        spec_raw_param(kind, pass_through) is Some ==>
            (spec_raw_param(kind, pass_through) == Some(RawParam::Abi) <==> !pass_through),
{
}

/// The words that name a kind of type in the error for an argument that
/// cannot be passed.
pub open spec fn kind_name(kind: TypeKind) -> Seq<char> {
    match kind {
        TypeKind::Array => "array type"@,
        TypeKind::BareFn => "barefn type"@,
        TypeKind::Group => "group type"@,
        TypeKind::ImplTrait => "implTrait type"@,
        TypeKind::Infer => "infer type"@,
        TypeKind::Macro => "typeMacro type"@,
        TypeKind::Never => "typeNever type"@,
        TypeKind::Paren => "paren type"@,
        TypeKind::Reference => "reference type"@,
        TypeKind::Slice => "slice type"@,
        TypeKind::TraitObject => "traitObject type"@,
        TypeKind::Tuple => "tuple type"@,
        TypeKind::Verbatim => "verbatim type"@,
        _ => "other type"@,
    }
}

/// The message of the error for an argument whose type cannot be passed.
pub open spec fn raw_param_message(kind: TypeKind) -> Seq<char> {
    "unexpected argument type: "@ + kind_name(kind)
}

pub open spec fn arg_ok<X>(a: InterfaceMethodArg<X>) -> bool {
    spec_raw_param(a.ty_kind, a.pass_through) is Some
}

pub open spec fn method_ok<X>(m: InterfaceMethod<X>) -> bool {
    forall|j: int| 0 <= j < m.args@.len() ==> arg_ok(#[trigger] m.args@[j])
}

/// The argument at `a` is the first one that cannot be passed.
pub open spec fn first_bad_raw_arg<X>(args: Seq<InterfaceMethodArg<X>>, a: int) -> bool {
    &&& 0 <= a < args.len()
    &&& !arg_ok(args[a])
    &&& forall|k: int| 0 <= k < a ==> arg_ok(#[trigger] args[k])
}

/// The method at `m` is the first one with an argument that cannot be passed.
pub open spec fn first_bad_method<X>(ms: Seq<InterfaceMethod<X>>, m: int) -> bool {
    &&& 0 <= m < ms.len()
    &&& !method_ok(ms[m])
    &&& forall|k: int| 0 <= k < m ==> method_ok(#[trigger] ms[k])
}

fn kind_message(kind: TypeKind) -> (r: String)
    ensures
        r@ == raw_param_message(kind),
{
    let mut s = chars_of("unexpected argument type: ");
    let name = match kind {
        TypeKind::Array => "array type",
        TypeKind::BareFn => "barefn type",
        TypeKind::Group => "group type",
        TypeKind::ImplTrait => "implTrait type",
        TypeKind::Infer => "infer type",
        TypeKind::Macro => "typeMacro type",
        TypeKind::Never => "typeNever type",
        TypeKind::Paren => "paren type",
        TypeKind::Reference => "reference type",
        TypeKind::Slice => "slice type",
        TypeKind::TraitObject => "traitObject type",
        TypeKind::Tuple => "tuple type",
        TypeKind::Verbatim => "verbatim type",
        _ => "other type",
    };
    push_str(&mut s, name);
    string_of(&s)
}

/// How an argument is passed to the vtable function, or the message of the
/// error for a type that cannot be passed.
pub fn raw_param<X>(arg: &InterfaceMethodArg<X>) -> (r: Result<RawParam, String>)
    ensures
        spec_raw_param(arg.ty_kind, arg.pass_through) matches Some(p) ==> r == Ok::<RawParam, String>(p),
        spec_raw_param(arg.ty_kind, arg.pass_through) is None ==> (r matches Err(msg) && msg@ == raw_param_message(arg.ty_kind)),
{
    match arg.ty_kind {
        TypeKind::Path | TypeKind::Ptr => {
            if arg.pass_through {
                Ok(RawParam::Plain)
            } else {
                Ok(RawParam::Abi)
            }
        },
        _ => Err(kind_message(arg.ty_kind)),
    }
}

/// One vtable entry: the field named after the method in camel case, and
/// how each argument is passed after the interface pointer.
#[derive(Debug)]
pub struct VTableMethod {
    pub field: String,
    pub params: Vec<RawParam>,
}

/// The vtable struct of an interface.
#[derive(Debug)]
pub struct VTable {
    pub ident: String,
    /// The vtable starts with a `parent` field holding the vtable of the
    /// interface it derives from (every interface but `IUnknown`).
    pub has_parent: bool,
    pub vptr_ident: String,
    pub methods: Vec<VTableMethod>,
}

/// An argument whose type cannot be passed to a vtable function.
#[derive(Debug)]
pub struct VTableError {
    pub method: usize,
    pub arg: usize,
    pub message: String,
}

/// The entry of a method whose arguments all can be passed.
pub open spec fn spec_vtable_method<X>(m: InterfaceMethod<X>, v: VTableMethod) -> bool {
    &&& v.field@ == spec_snake_to_camel(m.name@)
    &&& v.params@.len() == m.args@.len()
    &&& forall|j: int| 0 <= j < v.params@.len() ==> Some(#[trigger] v.params@[j]) == spec_raw_param(m.args@[j].ty_kind, m.args@[j].pass_through)
}

fn method_entry<X>(m: &InterfaceMethod<X>) -> (r: Result<VTableMethod, (usize, String)>)
    ensures
        r is Ok <==> method_ok(*m),
        r matches Ok(v) ==> spec_vtable_method(*m, v),
        r matches Err(e) ==> first_bad_raw_arg(m.args@, e.0 as int) && e.1@ == raw_param_message(m.args@[e.0 as int].ty_kind),
{
    let mut params: Vec<RawParam> = Vec::new();
    let mut j: usize = 0;
    while j < m.args.len()
        invariant
            j <= m.args@.len(),
            params@.len() == j,
            forall|k: int| 0 <= k < j ==> arg_ok(#[trigger] m.args@[k]),
            forall|k: int| 0 <= k < j ==> Some(#[trigger] params@[k]) == spec_raw_param(m.args@[k].ty_kind, m.args@[k].pass_through),
        decreases m.args@.len() - j,
    {
        match raw_param(&m.args[j]) {
            Ok(p) => {
                params.push(p);
            },
            Err(msg) => {
                assert(first_bad_raw_arg(m.args@, j as int));
                return Err((j, msg));
            },
        }
        j = j + 1;
    }
    let field = snake_to_camel(m.name.as_str());
    Ok(VTableMethod { field, params })
}

/// `r` is what `generate` gives for `interface`: the vtable when every
/// argument can be passed, else the error at the first one that cannot.
pub open spec fn generated<X>(interface: Interface<X>, r: Result<VTable, VTableError>) -> bool {
    &&& (r is Ok <==> forall|k: int| 0 <= k < interface.methods@.len() ==> method_ok(#[trigger] interface.methods@[k]))
    &&& (r matches Ok(t) ==> {
            &&& t.ident@ == interface.name@ + "VTable"@
            &&& t.vptr_ident@ == interface.name@ + "VPtr"@
            &&& t.has_parent == interface.parent is Some
            &&& t.methods@.len() == interface.methods@.len()
            &&& forall|k: int| 0 <= k < t.methods@.len() ==> spec_vtable_method(interface.methods@[k], #[trigger] t.methods@[k])
        })
    &&& (r matches Err(e) ==> {
            &&& first_bad_method(interface.methods@, e.method as int)
            &&& first_bad_raw_arg(interface.methods@[e.method as int].args@, e.arg as int)
            &&& e.message@ == raw_param_message(interface.methods@[e.method as int].args@[e.arg as int].ty_kind)
        })
}

/// The vtable of an interface, or the error at the first argument (of the
/// first method that has one) whose type cannot be passed.
pub fn generate<X>(interface: &Interface<X>) -> (r: Result<VTable, VTableError>)
    ensures
        generated(*interface, r),
{
    let mut methods: Vec<VTableMethod> = Vec::new();
    let mut k: usize = 0;
    while k < interface.methods.len()
        invariant
            k <= interface.methods@.len(),
            methods@.len() == k,
            forall|i: int| 0 <= i < k ==> method_ok(#[trigger] interface.methods@[i]),
            forall|i: int| 0 <= i < k ==> spec_vtable_method(interface.methods@[i], #[trigger] methods@[i]),
        decreases interface.methods@.len() - k,
    {
        match method_entry(&interface.methods[k]) {
            Ok(v) => {
                methods.push(v);
            },
            Err(e) => {
                assert(first_bad_method(interface.methods@, k as int));
                return Err(VTableError { method: k, arg: e.0, message: e.1 });
            },
        }
        k = k + 1;
    }
    let vptr_ident = super::vptr::ident(interface.name.as_str());
    Ok(VTable { ident: ident(interface.name.as_str()), has_parent: interface.parent.is_some(), vptr_ident, methods })
}

} // verus!
