//! The `interfaces!` macro: COM interface declarations, the rules they obey,
//! and the names and shapes of the items generated for them.
pub mod chains;
pub mod iid;
#[allow(clippy::module_inception)]
pub mod interface;
pub mod interfaces;
pub mod vptr;
pub mod vtable;

pub use iid::IID;
pub use interface::{Interface, InterfaceMethod};
pub use interfaces::Interfaces;

use vstd::prelude::*;
use interfaces::{walks, ConvertImpl};
use vtable::{generated, VTable, VTableError};

verus! {

/// What the `interfaces!` macro generates, apart from the items that only
/// repeat a declaration: the vtable of each interface (or the error that
/// stops it), and the conversions between interfaces and their ancestors
/// (`None` where a chain of parents never ends).
#[derive(Debug)]
pub struct Expansion {
    pub vtables: Vec<Result<VTable, VTableError>>,
    pub converts: Option<Vec<ConvertImpl>>,
}

/// Expands the interfaces of one invocation.
pub fn expand_interfacess<X>(interfaces: &Interfaces<X>) -> (r: Expansion)
    requires
        interfaces.wf(),
    ensures
        r.vtables@.len() == interfaces.inner@.len(),
        forall|i: int| 0 <= i < r.vtables@.len() ==> generated(interfaces.inner@[i], #[trigger] r.vtables@[i]),
        walks(interfaces.inner@, interfaces.parents@, interfaces.parents@.len()) matches Some(s) ==> (r.converts matches Some(v) && v@ == s),
        walks(interfaces.inner@, interfaces.parents@, interfaces.parents@.len()) is None ==> r.converts is None,
{
    let mut vtables: Vec<Result<VTable, VTableError>> = Vec::new();
    let mut i: usize = 0;
    while i < interfaces.inner.len()
        invariant
            i <= interfaces.inner@.len(),
            vtables@.len() == i,
            forall|k: int| 0 <= k < i ==> generated(interfaces.inner@[k], #[trigger] vtables@[k]),
        decreases interfaces.inner@.len() - i,
    {
        vtables.push(vtable::generate(&interfaces.inner[i]));
        i = i + 1;
    }
    Expansion { vtables, converts: interfaces.convert_impls() }
}

} // verus!
