//! Paths of interfaces as the macros see them.
use vstd::prelude::*;
use crate::text::{chars_of, push_all, string_of};

verus! {

/// One segment of a path: its identifier, and whether it carries generic
/// arguments (`Foo<T>`).
#[derive(Clone, Debug)]
pub struct Segment {
    pub ident: String,
    pub has_arguments: bool,
}

/// A path such as `IFoo` or `crate::IFoo`.
///
/// `text` is the path's token text; two paths are the same path exactly when
/// their texts are equal.
#[derive(Clone, Debug)]
pub struct PathModel {
    pub text: String,
    pub leading_colon: bool,
    pub segments: Vec<Segment>,
}

impl PathModel {
    /// The path consists of the single identifier `name` (`Path::is_ident`).
    pub open spec fn spec_is_ident(&self, name: Seq<char>) -> bool {
        &&& !self.leading_colon
        &&& self.segments@.len() == 1
        &&& !self.segments@[0].has_arguments
        &&& self.segments@[0].ident@ == name
    }

    /// The identifier of the path's last segment.
    pub open spec fn spec_last_ident(&self) -> Seq<char> {
        self.segments@.last().ident@
    }

    /// No segment carries generic arguments.
    pub open spec fn is_plain(&self) -> bool {
        forall|i: int| 0 <= i < self.segments@.len() ==> !(#[trigger] self.segments@[i]).has_arguments
    }

    pub fn is_ident(&self, name: &str) -> (b: bool)
        ensures
            b == self.spec_is_ident(name@),
    {
        if self.leading_colon || self.segments.len() != 1 || self.segments[0].has_arguments {
            false
        } else {
            let n = chars_of(name);
            let s = string_of(&n);
            self.segments[0].ident == s
        }
    }

    /// The path's single identifier, if it is one (`Path::get_ident`).
    pub fn get_ident(&self) -> (r: Option<String>)
        ensures
            r.is_some() == (!self.leading_colon && self.segments@.len() == 1
                && !self.segments@[0].has_arguments),
            r.is_some() ==> r.unwrap()@ == self.segments@[0].ident@,
    {
        if self.leading_colon || self.segments.len() != 1 || self.segments[0].has_arguments {
            None
        } else {
            Some(self.segments[0].ident.clone())
        }
    }

    /// Field-by-field equality.
    pub open spec fn same_as(&self, other: &PathModel) -> bool {
        &&& self.text == other.text
        &&& self.leading_colon == other.leading_colon
        &&& self.segments@ == other.segments@
    }

    /// A copy of the path, equal to it field by field.
    pub fn duplicate(&self) -> (r: PathModel)
        ensures
            r.same_as(self),
    {
        let mut segments: Vec<Segment> = Vec::new();
        let mut i: usize = 0;
        while i < self.segments.len()
            invariant
                i <= self.segments@.len(),
                segments@ == self.segments@.take(i as int),
            decreases self.segments@.len() - i,
        {
            let seg = Segment {
                ident: self.segments[i].ident.clone(),
                has_arguments: self.segments[i].has_arguments,
            };
            segments.push(seg);
            i = i + 1;
            assert(segments@ =~= self.segments@.take(i as int));
        }
        assert(segments@ =~= self.segments@);
        PathModel { text: self.text.clone(), leading_colon: self.leading_colon, segments }
    }

    pub fn last_ident(&self) -> (r: String)
        requires
            self.segments@.len() > 0,
        ensures
            r@ == self.spec_last_ident(),
    {
        self.segments[self.segments.len() - 1].ident.clone()
    }
}

/// The identifiers of segments `0..n` joined with `'_'`.
pub open spec fn joined_segments(segs: Seq<Segment>) -> Seq<char>
    decreases segs.len(),
{
    if segs.len() <= 1 {
        if segs.len() == 0 { Seq::empty() } else { segs[0].ident@ }
    } else {
        joined_segments(segs.drop_last()) + seq!['_'] + segs.last().ident@
    }
}

/// Flattens a path into one string, its segments separated by `'_'`.
///
/// Requires a path with at least one segment and no generic arguments.
pub fn path_to_single_string(path: &PathModel) -> (r: String)
    requires
        path.segments@.len() > 0,
        path.is_plain(),
    ensures
        r@ == joined_segments(path.segments@),
{
    let n = path.segments.len();
    if n == 1 {
        path.segments[0].ident.clone()
    } else {
        let mut s: Vec<char> = Vec::new();
        let mut i: usize = 0;
        while i < n
            invariant
                i <= n,
                n == path.segments@.len(),
                n > 1,
                s@ == joined_segments(path.segments@.take(i as int)),
            decreases n - i,
        {
            let ghost before = path.segments@.take(i as int);
            if i > 0 {
                s.push('_');
            }
            let id = chars_of(path.segments[i].ident.as_str());
            push_all(&mut s, &id);
            i = i + 1;
            proof {
                let now = path.segments@.take(i as int);
                assert(now.drop_last() =~= before);
                if i == 1 {
                    assert(before =~= Seq::<Segment>::empty());
                }
            }
        }
        assert(path.segments@.take(n as int) =~= path.segments@);
        string_of(&s)
    }
}

} // verus!
