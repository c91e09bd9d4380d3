//! The pointer type that an interface value wraps.
use vstd::prelude::*;
use crate::text::{chars_of, push_str, string_of};
use super::interface::Interface;

verus! {

/// The name of the vtable pointer type of an interface: its name followed
/// by `VPtr`.
pub fn ident(interface_name: &str) -> (r: String)
    ensures
        r@ == interface_name@ + "VPtr"@,
{
    let mut s = chars_of(interface_name);
    push_str(&mut s, "VPtr");
    string_of(&s)
}

/// The alias `<vis> type <Name>VPtr = NonNull<<Name>VTable>` generated for
/// an interface.
#[derive(Debug)]
pub struct VPtrAlias {
    pub ident: String,
    pub vtable_ident: String,
}

/// The names of the vtable pointer alias of an interface.
pub fn generate<X>(interface: &Interface<X>) -> (r: VPtrAlias)
    ensures
        r.ident@ == interface.name@ + "VPtr"@,
        r.vtable_ident@ == interface.name@ + "VTable"@,
{
    VPtrAlias { ident: ident(interface.name.as_str()), vtable_ident: super::vtable::ident(interface.name.as_str()) }
}

} // verus!
