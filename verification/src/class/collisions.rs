//! Resolving name collisions among the methods a class implements.
//!
//! Different interfaces may define methods of the same name (versioned
//! interfaces such as `IDWriteTextFormat`, `IDWriteTextFormat1`, ... do).
//! Every method whose name occurs more than once among the class's methods
//! is renamed to `{interface}__{method}`, where `{interface}` is the
//! interface path with its segments joined by `'_'`. When that name is taken,
//! a numeric suffix `__{counter:04}` is appended instead, with a counter
//! shared by the whole class that moves on until a free name is found. A
//! name is taken when some method was written with it or an earlier method
//! was already given it, so no two methods end up with the same name.
use vstd::prelude::*;
use vstd::set_lib::lemma_len_subset;
use crate::path::{joined_segments, path_to_single_string, PathModel};
use crate::text::{chars_of, decimal_padded, decimal_padded_chars, lemma_decimal_padded_injective, push_all, string_of};
use super::class::{Class, InterfaceImpl, InterfaceMethod};

verus! {

/// How often `x` occurs in `s`.
pub open spec fn count_of(s: Seq<Seq<char>>, x: Seq<char>) -> nat
    decreases s.len(),
{
    if s.len() == 0 {
        0
    } else {
        count_of(s.drop_last(), x) + if s.last() == x { 1nat } else { 0nat }
    }
}

/// One method as the renaming sees it: the flattened interface path, the
/// name written by the user, and the name it currently carries.
pub struct Entry {
    pub interface: Seq<char>,
    pub original: Seq<char>,
    pub current: Seq<char>,
}

pub open spec fn impl_entries<X>(m: InterfaceImpl<X>) -> Seq<Entry> {
    m.methods@.map_values(
        |mm: InterfaceMethod<X>|
            Entry {
                interface: joined_segments(m.path.segments@),
                original: mm.original_ident@,
                current: mm.ident@,
            },
    )
}

/// The methods of all `impl` blocks, in order.
pub open spec fn flat_entries<X>(impls: Seq<InterfaceImpl<X>>) -> Seq<Entry>
    decreases impls.len(),
{
    if impls.len() == 0 {
        Seq::empty()
    } else {
        flat_entries(impls.drop_last()) + impl_entries(impls.last())
    }
}

pub open spec fn idents_of<X>(ms: Seq<InterfaceMethod<X>>) -> Seq<Seq<char>> {
    ms.map_values(|m: InterfaceMethod<X>| m.ident@)
}

/// The names the methods of all `impl` blocks carry, in order.
pub open spec fn flat_idents<X>(impls: Seq<InterfaceImpl<X>>) -> Seq<Seq<char>>
    decreases impls.len(),
{
    if impls.len() == 0 {
        Seq::empty()
    } else {
        flat_idents(impls.drop_last()) + idents_of(impls.last().methods@)
    }
}

/// The names written by the user.
pub open spec fn original_names(entries: Seq<Entry>) -> Seq<Seq<char>> {
    entries.map_values(|e: Entry| e.original)
}

/// `{base}__{counter:04}`.
pub open spec fn candidate(base: Seq<char>, counter: nat) -> Seq<char> {
    base + seq!['_', '_'] + decimal_padded(counter, 4)
}

/// The first candidate from `counter` on that is not among `names`, and the
/// counter after it (looking at most `fuel` candidates ahead).
pub open spec fn search(names: Seq<Seq<char>>, base: Seq<char>, counter: nat, fuel: nat) -> (Seq<char>, nat)
    decreases fuel,
{
    if fuel == 0 || !names.contains(candidate(base, counter)) {
        (candidate(base, counter), counter + 1)
    } else {
        search(names, base, counter + 1, (fuel - 1) as nat)
    }
}

/// The names that a generated name must avoid: the names written by the
/// user and the names already given to earlier methods.
pub open spec fn taken(names: Seq<Seq<char>>, given: Seq<Seq<char>>) -> Seq<Seq<char>> {
    names + given
}

/// The name a method ends up with, given the names already given to the
/// methods before it, and the counter after it.
pub open spec fn renamed(names: Seq<Seq<char>>, given: Seq<Seq<char>>, e: Entry, counter: nat) -> (Seq<char>, nat) {
    if count_of(names, e.original) <= 1 {
        (e.current, counter)
    } else {
        let base = e.interface + seq!['_', '_'] + e.original;
        let pool = taken(names, given);
        if !pool.contains(base) {
            (base, counter)
        } else {
            search(pool, base, counter, pool.len())
        }
    }
}

/// The names of all methods after renaming, and the final counter.
pub open spec fn rename_all(names: Seq<Seq<char>>, entries: Seq<Entry>) -> (Seq<Seq<char>>, nat)
    decreases entries.len(),
{
    if entries.len() == 0 {
        (Seq::empty(), 0)
    } else {
        let prev = rename_all(names, entries.drop_last());
        let step = renamed(names, prev.0, entries.last(), prev.1);
        (prev.0.push(step.0), step.1)
    }
}

/// Every method whose name collides belongs to an interface path that can
/// be flattened (it has segments and no generic arguments).
pub open spec fn renaming_defined<X>(impls: Seq<InterfaceImpl<X>>) -> bool {
    let names = original_names(flat_entries(impls));
    forall|a: int, b: int|
        0 <= a < impls.len() && 0 <= b < impls[a].methods@.len() && count_of(
            names,
            (#[trigger] impls[a].methods@[b]).original_ident@,
        ) > 1 ==> impls[a].path.segments@.len() > 0 && impls[a].path.is_plain()
}

/// The `impl` blocks keep their interfaces and methods; only names change.
pub open spec fn same_shape<X>(a: Seq<InterfaceImpl<X>>, b: Seq<InterfaceImpl<X>>) -> bool {
    &&& a.len() == b.len()
    &&& forall|i: int| 0 <= i < a.len() ==> {
        &&& (#[trigger] a[i]).path == b[i].path
        &&& a[i].methods@.len() == b[i].methods@.len()
        &&& forall|j: int| 0 <= j < a[i].methods@.len() ==> {
            &&& (#[trigger] a[i].methods@[j]).item == b[i].methods@[j].item
            &&& a[i].methods@[j].original_ident == b[i].methods@[j].original_ident
        }
    }
}

pub open spec fn views(v: Seq<String>) -> Seq<Seq<char>> {
    v.map_values(|s: String| s@)
}

fn count_in(names: &Vec<String>, x: &String) -> (r: usize)
    ensures
        r == count_of(views(names@), x@),
{
    let mut c: usize = 0;
    let mut i: usize = 0;
    while i < names.len()
        invariant
            i <= names@.len(),
            c == count_of(views(names@.take(i as int)), x@),
            c <= i,
        decreases names@.len() - i,
    {
        assert(views(names@.take(i + 1)).drop_last() =~= views(names@.take(i as int)));
        if names[i] == *x {
            c = c + 1;
        }
        i = i + 1;
    }
    assert(names@.take(names@.len() as int) =~= names@);
    c
}

fn contains_name(names: &Vec<String>, x: &Vec<char>) -> (b: bool)
    ensures
        b == views(names@).contains(x@),
{
    let s = string_of(x);
    let mut i: usize = 0;
    while i < names.len()
        invariant
            i <= names@.len(),
            s@ == x@,
            forall|j: int| 0 <= j < i ==> (#[trigger] names@[j])@ != x@,
        decreases names@.len() - i,
    {
        if names[i] == s {
            assert(views(names@)[i as int] == x@);
            return true;
        }
        i = i + 1;
    }
    assert forall|j: int| 0 <= j < views(names@).len() implies views(names@)[j] != x@ by {
        assert(names@[j]@ != x@);
    }
    false
}

proof fn lemma_candidates_distinct(base: Seq<char>, a: nat, b: nat)
    requires
        a != b,
    ensures
        candidate(base, a) != candidate(base, b),
{
    if candidate(base, a) == candidate(base, b) {
        let p = base + seq!['_', '_'];
        assert(candidate(base, a).skip(p.len() as int) =~= decimal_padded(a, 4));
        assert(candidate(base, b).skip(p.len() as int) =~= decimal_padded(b, 4));
        lemma_decimal_padded_injective(a, b, 4);
    }
}

/// `x` is in `a + b` exactly when it is in `a` or in `b`.
proof fn lemma_concat_contains(a: Seq<Seq<char>>, b: Seq<Seq<char>>, x: Seq<char>)
    ensures
        (a + b).contains(x) <==> (a.contains(x) || b.contains(x)),
{
    if (a + b).contains(x) {
        let i = choose|i: int| 0 <= i < (a + b).len() && (a + b)[i] == x;
        if i < a.len() {
            assert(a[i] == x);
        } else {
            assert(b[i - a.len()] == x);
        }
    }
    if a.contains(x) {
        let i = choose|i: int| 0 <= i < a.len() && a[i] == x;
        assert((a + b)[i] == x);
    }
    if b.contains(x) {
        let i = choose|i: int| 0 <= i < b.len() && b[i] == x;
        assert((a + b)[a.len() + i] == x);
    }
}

fn is_taken(names: &Vec<String>, given: &Vec<String>, x: &Vec<char>) -> (b: bool)
    ensures
        b == taken(views(names@), views(given@)).contains(x@),
{
    proof {
        lemma_concat_contains(views(names@), views(given@), x@);
    }
    contains_name(names, x) || contains_name(given, x)
}

/// The name of one method after renaming, with the counter after it.
fn rename_one(
    names: &Vec<String>,
    given: &Vec<String>,
    path: &PathModel,
    original: &String,
    current: &String,
    counter: u128,
) -> (r: (String, u128))
    requires
        count_of(views(names@), original@) > 1 ==> path.segments@.len() > 0 && path.is_plain(),
        counter <= u32::MAX,
    ensures
        r.0@ == renamed(
            views(names@),
            views(given@),
            Entry { interface: joined_segments(path.segments@), original: original@, current: current@ },
            counter as nat,
        ).0,
        r.1 as nat == renamed(
            views(names@),
            views(given@),
            Entry { interface: joined_segments(path.segments@), original: original@, current: current@ },
            counter as nat,
        ).1,
{
    let ghost n = taken(views(names@), views(given@));
    let ghost e = Entry { interface: joined_segments(path.segments@), original: original@, current: current@ };
    let name_count = names.len();
    let given_count = given.len();
    assert(n.len() <= 2 * 0xffff_ffff_ffff_ffff) by {
        assert(name_count <= usize::MAX);
        assert(given_count <= usize::MAX);
    }
    if count_in(names, original) <= 1 {
        return (current.clone(), counter);
    }
    let iface = path_to_single_string(path);
    let mut base = chars_of(iface.as_str());
    base.push('_');
    base.push('_');
    let orig = chars_of(original.as_str());
    push_all(&mut base, &orig);
    assert(base@ =~= e.interface + seq!['_', '_'] + e.original);
    if !is_taken(names, given, &base) {
        return (string_of(&base), counter);
    }
    let ghost start = counter as nat;
    let ghost fuel = n.len();
    let ghost mut tried: Set<Seq<char>> = Set::empty();
    let mut c = counter;
    let mut found: Vec<char>;
    loop
        invariant_except_break
            start <= c,
            (c as nat) - start <= fuel,
            tried.finite(),
            tried.len() == (c as nat) - start,
            tried.subset_of(n.to_set()),
            forall|x: nat| start <= x < c ==> tried.contains(#[trigger] candidate(base@, x)),
            forall|s: Seq<char>| tried.contains(s) ==> exists|x: nat| start <= x < c && s == #[trigger] candidate(base@, x),
            search(n, base@, start, fuel) == search(n, base@, c as nat, (fuel - ((c as nat) - start)) as nat),
            counter <= u32::MAX,
            fuel <= 2 * 0xffff_ffff_ffff_ffff,
            n == taken(views(names@), views(given@)),
            fuel == n.len(),
            start == counter as nat,
            base@ == e.interface + seq!['_', '_'] + e.original,
        ensures
            found@ == search(n, base@, start, fuel).0,
            c as nat == search(n, base@, start, fuel).1,
        decreases fuel - ((c as nat) - start),
    {
        let mut cand = base.clone();
        assert(cand@ == base@);
        cand.push('_');
        cand.push('_');
        let digits = decimal_padded_chars(c, 4);
        push_all(&mut cand, &digits);
        assert(cand@ =~= candidate(base@, c as nat));
        let hit = is_taken(names, given, &cand);
        if !hit {
            found = cand;
            c = c + 1;
            break;
        }
        proof {
            assert(!tried.contains(candidate(base@, c as nat))) by {
                if tried.contains(candidate(base@, c as nat)) {
                    let x = choose|x: nat| start <= x < c && candidate(base@, c as nat) == #[trigger] candidate(base@, x);
                    lemma_candidates_distinct(base@, x, c as nat);
                }
            }
            assert(n.to_set().contains(candidate(base@, c as nat)));
            let t2 = tried.insert(candidate(base@, c as nat));
            assert(t2.len() == tried.len() + 1);
            n.lemma_cardinality_of_set();
            lemma_len_subset(t2, n.to_set());
            assert forall|s: Seq<char>| t2.contains(s) implies exists|x: nat| start <= x < c + 1 && s == #[trigger] candidate(base@, x) by {
                if s == candidate(base@, c as nat) {
                } else {
                    let x = choose|x: nat| start <= x < c && s == #[trigger] candidate(base@, x);
                }
            }
            tried = t2;
        }
        c = c + 1;
    }
    (string_of(&found), c)
}


fn take_first<T>(v: &mut Vec<T>) -> (r: T)
    requires
        old(v)@.len() > 0,
    ensures
        r == old(v)@[0],
        final(v)@ == old(v)@.drop_first(),
{
    v.remove(0)
}

/// The names written by the user, for all methods in order.
fn original_name_list<X>(impls: &Vec<InterfaceImpl<X>>) -> (r: Vec<String>)
    ensures
        views(r@) == original_names(flat_entries(impls@)),
{
    let mut r: Vec<String> = Vec::new();
    let mut a: usize = 0;
    while a < impls.len()
        invariant
            a <= impls@.len(),
            views(r@) == original_names(flat_entries(impls@.take(a as int))),
        decreases impls@.len() - a,
    {
        let ghost before = views(r@);
        assert(impls@.take(a + 1).drop_last() =~= impls@.take(a as int));
        let ms = &impls[a].methods;
        let mut b: usize = 0;
        while b < ms.len()
            invariant
                b <= ms@.len(),
                a < impls@.len(),
                ms == impls@[a as int].methods,
                views(r@) == before + original_names(impl_entries(impls@[a as int])).take(b as int),
            decreases ms@.len() - b,
        {
            let ghost prev = r@;
            let ghost on = original_names(impl_entries(impls@[a as int]));
            r.push(ms[b].original_ident.clone());
            assert(views(r@) =~= views(prev).push(ms@[b as int].original_ident@));
            assert(on[b as int] == ms@[b as int].original_ident@);
            assert(on.take(b + 1) =~= on.take(b as int).push(on[b as int]));
            b = b + 1;
            assert(views(r@) =~= before + on.take(b as int));
        }
        assert(original_names(impl_entries(impls@[a as int])).take(ms@.len() as int) =~= original_names(impl_entries(impls@[a as int])));
        assert(original_names(flat_entries(impls@.take(a + 1))) =~= before + original_names(impl_entries(impls@[a as int])));
        a = a + 1;
    }
    assert(impls@.take(impls@.len() as int) =~= impls@);
    r
}

proof fn lemma_flat_prefix_len<X>(s: Seq<InterfaceImpl<X>>, a: int)
    requires
        0 <= a <= s.len(),
    ensures
        flat_entries(s.take(a)).len() <= flat_entries(s).len(),
    decreases s.len(),
{
    if a == s.len() {
        assert(s.take(a) =~= s);
    } else {
        assert(s.drop_last().take(a) =~= s.take(a));
        lemma_flat_prefix_len(s.drop_last(), a);
    }
}

/// Renames the methods of `class` whose names collide (see the module
/// documentation); all other methods keep their names, and nothing else of
/// the class changes. When every method still carries the name it was
/// written with, the names afterwards are pairwise distinct.
///
/// The renaming is defined when every colliding method belongs to an
/// interface path with segments and without generic arguments. The counter
/// is a `u32` that must not reach `u32::MAX` while it is in use, so at most
/// `u32::MAX` numbered names can be tried (see `collision_counter`).
pub fn find_method_name_collisions<X>(class: &mut Class<X>)
    requires
        renaming_defined(old(class).methods@),
        rename_all(original_names(flat_entries(old(class).methods@)), flat_entries(old(class).methods@)).1 <= u32::MAX,
    ensures
        same_shape(final(class).methods@, old(class).methods@),
        flat_idents(final(class).methods@) == rename_all(
            original_names(flat_entries(old(class).methods@)),
            flat_entries(old(class).methods@),
        ).0,
        (forall|k: int| 0 <= k < flat_entries(old(class).methods@).len() ==>
            (#[trigger] flat_entries(old(class).methods@)[k]).current == flat_entries(old(class).methods@)[k].original)
            ==> forall|j: int, k: int| 0 <= j < k < flat_idents(final(class).methods@).len() ==>
                #[trigger] flat_idents(final(class).methods@)[j] != #[trigger] flat_idents(final(class).methods@)[k],
        final(class).name == old(class).name,
        final(class).has_class_factory == old(class).has_class_factory,
        final(class).docs == old(class).docs,
        final(class).visibility == old(class).visibility,
        final(class).interfaces == old(class).interfaces,
        final(class).fields == old(class).fields,
        final(class).impl_debug == old(class).impl_debug,
{
    let ghost orig = class.methods@;
    let ghost all = flat_entries(orig);
    let names = original_name_list(&class.methods);
    let ghost n = views(names@);
    let mut impls: Vec<InterfaceImpl<X>> = Vec::new();
    std::mem::swap(&mut impls, &mut class.methods);
    let mut out: Vec<InterfaceImpl<X>> = Vec::new();
    let mut given: Vec<String> = Vec::new();
    let mut counter: u128 = 0;
    let ghost mut done: Seq<Entry> = Seq::empty();
    let mut a: usize = 0;
    let na = impls.len();
    assert(orig.take(0) =~= Seq::<InterfaceImpl<X>>::empty());
    while a < na
        invariant
            na == orig.len(),
            a <= na,
            impls@ == orig.skip(a as int),
            done == flat_entries(orig.take(a as int)),
            flat_idents(out@) == rename_all(n, done).0,
            views(given@) == rename_all(n, done).0,
            counter as nat == rename_all(n, done).1,
            same_shape(out@, orig.take(a as int)),
            n == views(names@),
            n == original_names(all),
            all == flat_entries(orig),
            rename_all(n, all).1 <= u32::MAX,
            renaming_defined(orig),
            class.name == old(class).name,
            class.has_class_factory == old(class).has_class_factory,
            class.docs == old(class).docs,
            class.visibility == old(class).visibility,
            class.interfaces == old(class).interfaces,
            class.fields == old(class).fields,
            class.impl_debug == old(class).impl_debug,
        decreases na - a,
    {
        let m = take_first(&mut impls);
        assert(m == orig[a as int]);
        assert(impls@ =~= orig.skip(a + 1));
        assert(orig.take(a + 1).drop_last() =~= orig.take(a as int));
        let InterfaceImpl { path, methods } = m;
        let ghost ents = impl_entries(orig[a as int]);
        let ghost done0 = done;
        let ghost out0 = out@;
        let mut rest = methods;
        let mut renamed_methods: Vec<InterfaceMethod<X>> = Vec::new();
        let nb = rest.len();
        let mut b: usize = 0;
        assert(done =~= done0 + ents.take(0));
        while b < nb
            invariant
                nb == orig[a as int].methods@.len(),
                b <= nb,
                rest@ == orig[a as int].methods@.skip(b as int),
                path == orig[a as int].path,
                ents == impl_entries(orig[a as int]),
                done == done0 + ents.take(b as int),
                flat_idents(out0) + idents_of(renamed_methods@) == rename_all(n, done).0,
                views(given@) == rename_all(n, done).0,
                counter as nat == rename_all(n, done).1,
                done0 == flat_entries(orig.take(a as int)),
                renamed_methods@.len() == b,
                forall|j: int| 0 <= j < b ==> {
                    &&& (#[trigger] renamed_methods@[j]).item == orig[a as int].methods@[j].item
                    &&& renamed_methods@[j].original_ident == orig[a as int].methods@[j].original_ident
                },
                n == views(names@),
                n == original_names(all),
                all == flat_entries(orig),
                rename_all(n, all).1 <= u32::MAX,
                renaming_defined(orig),
                0 <= a < orig.len(),
            decreases nb - b,
        {
            let mm = take_first(&mut rest);
            assert(mm == orig[a as int].methods@[b as int]);
            assert(rest@ =~= orig[a as int].methods@.skip(b + 1));
            proof {
                lemma_done_prefix(orig, a as int, b as int);
                lemma_flat_prefix_len(orig, a as int);
                lemma_counter_mono(n, all, done.len() as int);
                assert(renaming_defined(orig));
                assert(count_of(n, mm.original_ident@) > 1 ==> path.segments@.len() > 0 && path.is_plain()) by {
                    assert(orig[a as int].methods@[b as int] == mm);
                }
            }
            let (new_ident, c2) = rename_one(&names, &given, &path, &mm.original_ident, &mm.ident, counter);
            let ghost e = ents[b as int];
            proof {
                assert(e == Entry { interface: joined_segments(path.segments@), original: mm.original_ident@, current: mm.ident@ });
                let d2 = done.push(e);
                assert(d2.drop_last() =~= done);
                assert(done0 + ents.take(b + 1) =~= d2);
                done = d2;
            }
            given.push(new_ident.clone());
            let InterfaceMethod { item, ident: _, original_ident } = mm;
            let ghost prev_rm = renamed_methods@;
            renamed_methods.push(InterfaceMethod { item, ident: new_ident, original_ident });
            proof {
                assert(idents_of(renamed_methods@) =~= idents_of(prev_rm).push(renamed_methods@.last().ident@));
                assert(views(given@) =~= rename_all(n, done).0);
            }
            counter = c2;
            b = b + 1;
        }
        assert(ents.take(nb as int) =~= ents);
        assert(rest@.len() == 0);
        out.push(InterfaceImpl { path, methods: renamed_methods });
        proof {
            assert(out@.drop_last() =~= out0);
            assert(flat_entries(orig.take(a + 1)) == done0 + ents);
            assert(same_shape(out@, orig.take(a + 1)));
        }
        a = a + 1;
    }
    assert(orig.take(na as int) =~= orig);
    proof {
        if forall|k: int| 0 <= k < all.len() ==> (#[trigger] all[k]).current == all[k].original {
            law_renamed_distinct(all);
        }
    }
    class.methods = out;
}

/// Whether the renaming of `class` is defined (see
/// `find_method_name_collisions`).
pub fn renaming_is_defined<X>(class: &Class<X>) -> (b: bool)
    ensures
        b == renaming_defined(class.methods@),
{
    defined_for(&class.methods)
}

fn defined_for<X>(methods: &Vec<InterfaceImpl<X>>) -> (b: bool)
    ensures
        b == renaming_defined(methods@),
{
    let names = original_name_list(&methods);
    let a_len = methods.len();
    let mut a: usize = 0;
    while a < a_len
        invariant
            a <= a_len,
            a_len == methods@.len(),
            views(names@) == original_names(flat_entries(methods@)),
            forall|i: int, j: int|
                0 <= i < a && 0 <= j < methods@[i].methods@.len() && count_of(
                    original_names(flat_entries(methods@)),
                    (#[trigger] methods@[i].methods@[j]).original_ident@,
                ) > 1 ==> methods@[i].path.segments@.len() > 0 && methods@[i].path.is_plain(),
        decreases a_len - a,
    {
        let m = &methods[a];
        let plain = path_is_flat(&m.path);
        let mut b: usize = 0;
        while b < m.methods.len()
            invariant
                b <= m.methods@.len(),
                a < methods@.len(),
                m == methods@[a as int],
                plain == (m.path.segments@.len() > 0 && m.path.is_plain()),
                views(names@) == original_names(flat_entries(methods@)),
                forall|j: int|
                    0 <= j < b && count_of(
                        original_names(flat_entries(methods@)),
                        (#[trigger] m.methods@[j]).original_ident@,
                    ) > 1 ==> plain,
            decreases m.methods@.len() - b,
        {
            if !plain && count_in(&names, &m.methods[b].original_ident) > 1 {
                return false;
            }
            b = b + 1;
        }
        a = a + 1;
    }
    true
}

fn path_is_flat(p: &PathModel) -> (b: bool)
    ensures
        b == (p.segments@.len() > 0 && p.is_plain()),
{
    if p.segments.len() == 0 {
        return false;
    }
    let mut i: usize = 0;
    while i < p.segments.len()
        invariant
            i <= p.segments@.len(),
            forall|k: int| 0 <= k < i ==> !(#[trigger] p.segments@[k]).has_arguments,
        decreases p.segments@.len() - i,
    {
        if p.segments[i].has_arguments {
            return false;
        }
        i = i + 1;
    }
    true
}

/// The value the collision counter ends at when the methods of `class` are
/// renamed (one more than the last number tried), when that value is at
/// most `u32::MAX`; otherwise some value above `u32::MAX`.
pub fn collision_counter<X>(class: &Class<X>) -> (r: u128)
    requires
        renaming_defined(class.methods@),
    ensures
        r <= u32::MAX ==> r == rename_all(original_names(flat_entries(class.methods@)), flat_entries(class.methods@)).1,
        r > u32::MAX ==> rename_all(original_names(flat_entries(class.methods@)), flat_entries(class.methods@)).1 > u32::MAX,
{
    counter_for(&class.methods)
}

fn counter_for<X>(methods: &Vec<InterfaceImpl<X>>) -> (r: u128)
    requires
        renaming_defined(methods@),
    ensures
        r <= u32::MAX ==> r == rename_all(original_names(flat_entries(methods@)), flat_entries(methods@)).1,
        r > u32::MAX ==> rename_all(original_names(flat_entries(methods@)), flat_entries(methods@)).1 > u32::MAX,
{
    let ghost impls = methods@;
    let ghost all = flat_entries(impls);
    let names = original_name_list(&methods);
    let ghost n = views(names@);
    let mut given: Vec<String> = Vec::new();
    let mut counter: u128 = 0;
    let ghost mut done: Seq<Entry> = Seq::empty();
    let mut a: usize = 0;
    assert(impls.take(0) =~= Seq::<InterfaceImpl<X>>::empty());
    while a < methods.len()
        invariant
            a <= impls.len(),
            impls == methods@,
            done == flat_entries(impls.take(a as int)),
            counter as nat == rename_all(n, done).1,
            views(given@) == rename_all(n, done).0,
            n == views(names@),
            n == original_names(all),
            all == flat_entries(impls),
            renaming_defined(impls),
        decreases impls.len() - a,
    {
        assert(impls.take(a + 1).drop_last() =~= impls.take(a as int));
        let m = &methods[a];
        let ghost ents = impl_entries(impls[a as int]);
        let ghost done0 = done;
        let mut b: usize = 0;
        assert(done =~= done0 + ents.take(0));
        while b < m.methods.len()
            invariant
                b <= m.methods@.len(),
                0 <= a < impls.len(),
                impls == methods@,
                *m == impls[a as int],
                ents == impl_entries(impls[a as int]),
                done == done0 + ents.take(b as int),
                done0 == flat_entries(impls.take(a as int)),
                counter as nat == rename_all(n, done).1,
                views(given@) == rename_all(n, done).0,
                n == views(names@),
                n == original_names(all),
                all == flat_entries(impls),
                renaming_defined(impls),
            decreases m.methods@.len() - b,
        {
            proof {
                lemma_done_prefix(impls, a as int, b as int);
                lemma_flat_prefix_len(impls, a as int);
                lemma_counter_mono(n, all, done.len() as int);
            }
            if counter > u32::MAX as u128 {
                assert(done == all.take(done.len() as int));
                return counter;
            }
            let mm = &m.methods[b];
            proof {
                assert(impls[a as int].methods@[b as int] == *mm);
            }
            let (new_ident, c2) = rename_one(&names, &given, &m.path, &mm.original_ident, &mm.ident, counter);
            let ghost e = ents[b as int];
            proof {
                assert(e == Entry { interface: joined_segments(m.path.segments@), original: mm.original_ident@, current: mm.ident@ });
                let d2 = done.push(e);
                assert(d2.drop_last() =~= done);
                assert(done0 + ents.take(b + 1) =~= d2);
                done = d2;
            }
            given.push(new_ident);
            assert(views(given@) =~= rename_all(n, done).0);
            counter = c2;
            b = b + 1;
        }
        assert(ents.take(m.methods@.len() as int) =~= ents);
        assert(flat_entries(impls.take(a + 1)) == done0 + ents);
        a = a + 1;
    }
    assert(impls.take(impls.len() as int) =~= impls);
    counter
}

/// Renaming the methods `impls` is defined and stays within the counter's
/// range (see `find_method_name_collisions`).
pub open spec fn renaming_in_bounds<X>(impls: Seq<InterfaceImpl<X>>) -> bool {
    &&& renaming_defined(impls)
    &&& rename_all(original_names(flat_entries(impls)), flat_entries(impls)).1 <= u32::MAX
}

pub(crate) fn in_bounds_for<X>(methods: &Vec<InterfaceImpl<X>>) -> (b: bool)
    ensures
        b == renaming_in_bounds(methods@),
{
    defined_for(methods) && counter_for(methods) <= u32::MAX as u128
}

proof fn lemma_search_fresh(names: Seq<Seq<char>>, base: Seq<char>, c: nat, fuel: nat, tried: Set<Seq<char>>, start: nat)
    requires
        start <= c,
        tried.finite(),
        tried.subset_of(names.to_set()),
        tried.len() + fuel >= names.to_set().len(),
        forall|s: Seq<char>| tried.contains(s) ==> exists|x: nat| start <= x < c && s == #[trigger] candidate(base, x),
    ensures
        !names.contains(search(names, base, c, fuel).0),
    decreases fuel,
{
    let cand = candidate(base, c);
    if !names.contains(cand) {
        return;
    }
    assert(names.to_set().contains(cand));
    assert(!tried.contains(cand)) by {
        if tried.contains(cand) {
            let x = choose|x: nat| start <= x < c && cand == #[trigger] candidate(base, x);
            lemma_candidates_distinct(base, x, c);
        }
    }
    let t2 = tried.insert(cand);
    names.lemma_cardinality_of_set();
    lemma_len_subset(t2, names.to_set());
    if fuel == 0 {
        assert(false);
    } else {
        assert forall|s: Seq<char>| t2.contains(s) implies exists|x: nat| start <= x < c + 1 && s == #[trigger] candidate(base, x) by {
            if s != cand {
                let x = choose|x: nat| start <= x < c && s == #[trigger] candidate(base, x);
            }
        }
        lemma_search_fresh(names, base, c + 1, (fuel - 1) as nat, t2, start);
    }
}

proof fn lemma_search_counter(names: Seq<Seq<char>>, base: Seq<char>, c: nat, fuel: nat)
    ensures
        search(names, base, c, fuel).1 > c,
    decreases fuel,
{
    if fuel > 0 && names.contains(candidate(base, c)) {
        lemma_search_counter(names, base, c + 1, (fuel - 1) as nat);
    }
}

/// A method whose name occurs only once keeps its name; a method whose name
/// occurs more than once gets a name that no method was written with and
/// that no earlier method was given. The counter never goes back.
pub proof fn lemma_renamed_method(names: Seq<Seq<char>>, given: Seq<Seq<char>>, e: Entry, counter: nat)
    ensures
        count_of(names, e.original) <= 1 ==> renamed(names, given, e, counter).0 == e.current,
        count_of(names, e.original) > 1 ==> !names.contains(renamed(names, given, e, counter).0)
            && !given.contains(renamed(names, given, e, counter).0),
        counter <= renamed(names, given, e, counter).1,
{
    if count_of(names, e.original) > 1 {
        let base = e.interface + seq!['_', '_'] + e.original;
        let pool = taken(names, given);
        let r = renamed(names, given, e, counter).0;
        if pool.contains(base) {
            pool.lemma_cardinality_of_set();
            lemma_search_fresh(pool, base, counter, pool.len(), Set::empty(), counter);
            lemma_search_counter(pool, base, counter, pool.len());
        }
        lemma_concat_contains(names, given, r);
    }
}

/// The renaming as the names written by the user fix it: `names` holds the
/// name each entry was written with, so an entry whose name occurs once is
/// the only one with that name.
pub open spec fn written_names(names: Seq<Seq<char>>, es: Seq<Entry>) -> bool {
    &&& forall|k: int| 0 <= k < es.len() ==> (#[trigger] es[k]).current == es[k].original
    &&& forall|k: int| 0 <= k < es.len() ==> names.contains((#[trigger] es[k]).original)
    &&& forall|j: int, k: int| 0 <= j < k < es.len() && (#[trigger] es[j]).original == (#[trigger] es[k]).original
        ==> count_of(names, es[j].original) > 1
}

proof fn lemma_rename_distinct(names: Seq<Seq<char>>, es: Seq<Entry>)
    requires
        written_names(names, es),
    ensures
        rename_all(names, es).0.len() == es.len(),
        forall|j: int, k: int| 0 <= j < k < es.len() ==>
            #[trigger] rename_all(names, es).0[j] != #[trigger] rename_all(names, es).0[k],
        forall|j: int| 0 <= j < es.len() ==> {
            ||| (#[trigger] rename_all(names, es).0[j] == es[j].original && count_of(names, es[j].original) <= 1)
            ||| !names.contains(rename_all(names, es).0[j])
        },
    decreases es.len(),
{
    if es.len() > 0 {
        let d = es.drop_last();
        assert(written_names(names, d)) by {
            assert forall|k: int| 0 <= k < d.len() implies #[trigger] d[k] == es[k] by {}
        }
        lemma_rename_distinct(names, d);
        let prev = rename_all(names, d);
        let e = es.last();
        lemma_renamed_method(names, prev.0, e, prev.1);
        let res = rename_all(names, es).0;
        let r = renamed(names, prev.0, e, prev.1).0;
        assert(res == prev.0.push(r));
        let n = es.len() - 1;
        assert forall|j: int| 0 <= j < n implies #[trigger] res[j] != res[n] by {
            assert(res[j] == prev.0[j]);
            assert(d[j] == es[j]);
            if count_of(names, e.original) > 1 {
                assert(prev.0.contains(prev.0[j]));
            } else {
                assert(r == e.original);
                if prev.0[j] == es[j].original && count_of(names, es[j].original) <= 1 {
                    if es[j].original == e.original {
                        assert(es[j].original == es[n].original);
                    }
                }
            }
        }
        assert forall|j: int, k: int| 0 <= j < k < es.len() implies
            #[trigger] res[j] != #[trigger] res[k] by {
            if k < n {
                assert(res[j] == prev.0[j]);
                assert(res[k] == prev.0[k]);
            } else {
                assert(res[j] != res[n]);
            }
        }
        assert forall|j: int| 0 <= j < es.len() implies {
            ||| (#[trigger] res[j] == es[j].original && count_of(names, es[j].original) <= 1)
            ||| !names.contains(res[j])
        } by {
            if j < n {
                assert(res[j] == prev.0[j]);
                assert(d[j] == es[j]);
            }
        }
    }
}

proof fn lemma_count_one(s: Seq<Seq<char>>, j: int)
    requires
        0 <= j < s.len(),
    ensures
        count_of(s, s[j]) >= 1,
    decreases s.len(),
{
    if j < s.len() - 1 {
        lemma_count_one(s.drop_last(), j);
        assert(s.drop_last()[j] == s[j]);
    }
}

proof fn lemma_count_two(s: Seq<Seq<char>>, j: int, k: int)
    requires
        0 <= j < k < s.len(),
        s[j] == s[k],
    ensures
        count_of(s, s[j]) >= 2,
    decreases s.len(),
{
    let d = s.drop_last();
    assert(d[j] == s[j]);
    if k == s.len() - 1 {
        lemma_count_one(d, j);
    } else {
        assert(d[k] == s[k]);
        lemma_count_two(d, j, k);
    }
}

proof fn lemma_search_candidate(names: Seq<Seq<char>>, base: Seq<char>, c: nat, fuel: nat)
    ensures
        exists|x: nat| c <= x && search(names, base, c, fuel).0 == base + seq!['_', '_'] + decimal_padded(x, 4),
    decreases fuel,
{
    if fuel == 0 || !names.contains(candidate(base, c)) {
        assert(search(names, base, c, fuel).0 == base + seq!['_', '_'] + decimal_padded(c, 4));
    } else {
        lemma_search_candidate(names, base, c + 1, (fuel - 1) as nat);
    }
}

/// The name a colliding method gets is `{interface}__{method}`, or, when
/// that name is taken, `{interface}__{method}__{counter:04}` with a counter
/// no smaller than the one it was handed.
pub proof fn law_renamed_shape(names: Seq<Seq<char>>, given: Seq<Seq<char>>, e: Entry, counter: nat)
    requires
        count_of(names, e.original) > 1,
    ensures
        ({
            let base = e.interface + seq!['_', '_'] + e.original;
            let r = renamed(names, given, e, counter).0;
            ||| r == base
            ||| exists|x: nat| counter <= x && r == base + seq!['_', '_'] + decimal_padded(x, 4)
        }),
{
    let base = e.interface + seq!['_', '_'] + e.original;
    let pool = taken(names, given);
    if pool.contains(base) {
        lemma_search_candidate(pool, base, counter, pool.len());
    }
}

/// `count_of` counts exactly the names equal to `x`, no others.
pub proof fn law_count_of_exact(s: Seq<Seq<char>>, x: Seq<char>)
    ensures
        count_of(s, x) == s.filter(|y: Seq<char>| y == x).len(),
    decreases s.len(),
{
    reveal(Seq::filter);
    if s.len() > 0 {
        law_count_of_exact(s.drop_last(), x);
    }
}

proof fn lemma_count_zero(s: Seq<Seq<char>>, x: Seq<char>)
    requires
        forall|j: int| 0 <= j < s.len() ==> s[j] != x,
    ensures
        count_of(s, x) == 0,
    decreases s.len(),
{
    if s.len() > 0 {
        let d = s.drop_last();
        assert forall|j: int| 0 <= j < d.len() implies d[j] != x by {
            assert(d[j] == s[j]);
        }
        lemma_count_zero(d, x);
    }
}

proof fn lemma_count_unique(s: Seq<Seq<char>>, k: int)
    requires
        0 <= k < s.len(),
        forall|j: int| 0 <= j < s.len() && j != k ==> s[j] != s[k],
    ensures
        count_of(s, s[k]) == 1,
    decreases s.len(),
{
    let d = s.drop_last();
    if k == s.len() - 1 {
        assert forall|j: int| 0 <= j < d.len() implies d[j] != s[k] by {
            assert(d[j] == s[j]);
        }
        lemma_count_zero(d, s[k]);
    } else {
        assert(d[k] == s[k]);
        assert forall|j: int| 0 <= j < d.len() && j != k implies d[j] != d[k] by {
            assert(d[j] == s[j]);
        }
        lemma_count_unique(d, k);
        assert(s.last() != s[k]);
    }
}

/// A method whose name no other method of the class was written with keeps
/// the name it carries: a name that merely starts or ends like another is
/// no collision.
pub proof fn law_unique_name_kept(entries: Seq<Entry>, k: int)
    requires
        0 <= k < entries.len(),
        forall|j: int| 0 <= j < entries.len() && j != k ==> (#[trigger] entries[j]).original != entries[k].original,
    ensures
        rename_all(original_names(entries), entries).0[k] == entries[k].current,
{
    let names = original_names(entries);
    assert forall|j: int| 0 <= j < names.len() && j != k implies names[j] != names[k] by {
        assert(entries[j].original != entries[k].original);
    }
    lemma_count_unique(names, k);
    lemma_rename_all_at(names, entries, k);
}

/// After renaming, every method whose name occurs once among all the
/// class's methods keeps its name, and every other method carries a name
/// that no method of the class was written with.
pub proof fn law_collision_renaming(entries: Seq<Entry>, k: int)
    requires
        0 <= k < entries.len(),
    ensures
        ({
            let names = original_names(entries);
            let result = rename_all(names, entries).0;
            &&& result.len() == entries.len()
            &&& count_of(names, entries[k].original) <= 1 ==> result[k] == entries[k].current
            &&& count_of(names, entries[k].original) > 1 ==> !names.contains(result[k])
        }),
{
    let names = original_names(entries);
    lemma_rename_all_at(names, entries, k);
}

/// After renaming, no two methods of a class carry the same name: every
/// name collision is resolved, as the names the renaming generates avoid
/// both the names written by the user and the names already given.
pub proof fn law_renamed_distinct(entries: Seq<Entry>)
    requires
        forall|k: int| 0 <= k < entries.len() ==> (#[trigger] entries[k]).current == entries[k].original,
    ensures
        ({
            let result = rename_all(original_names(entries), entries).0;
            &&& result.len() == entries.len()
            &&& forall|j: int, k: int| 0 <= j < k < result.len() ==> #[trigger] result[j] != #[trigger] result[k]
        }),
{
    let names = original_names(entries);
    assert(written_names(names, entries)) by {
        assert forall|k: int| 0 <= k < entries.len() implies names.contains((#[trigger] entries[k]).original) by {
            assert(names[k] == entries[k].original);
        }
        assert forall|j: int, k: int| 0 <= j < k < entries.len() && (#[trigger] entries[j]).original == (#[trigger] entries[k]).original
            implies count_of(names, entries[j].original) > 1 by {
            assert(names[j] == entries[j].original);
            assert(names[k] == entries[k].original);
            lemma_count_two(names, j, k);
        }
    }
    lemma_rename_distinct(names, entries);
}

proof fn lemma_rename_all_at(names: Seq<Seq<char>>, entries: Seq<Entry>, k: int)
    requires
        0 <= k < entries.len(),
    ensures
        rename_all(names, entries).0.len() == entries.len(),
        count_of(names, entries[k].original) <= 1 ==> rename_all(names, entries).0[k] == entries[k].current,
        count_of(names, entries[k].original) > 1 ==> !names.contains(rename_all(names, entries).0[k]),
    decreases entries.len(),
{
    lemma_rename_all_len(names, entries.drop_last());
    if k == entries.len() - 1 {
        let prev = rename_all(names, entries.drop_last());
        lemma_renamed_method(names, prev.0, entries.last(), prev.1);
    } else {
        lemma_rename_all_at(names, entries.drop_last(), k);
    }
}

proof fn lemma_rename_all_len(names: Seq<Seq<char>>, entries: Seq<Entry>)
    ensures
        rename_all(names, entries).0.len() == entries.len(),
    decreases entries.len(),
{
    if entries.len() > 0 {
        lemma_rename_all_len(names, entries.drop_last());
    }
}

/// The counter after a prefix of the entries is at most the final counter.
proof fn lemma_counter_mono(names: Seq<Seq<char>>, entries: Seq<Entry>, i: int)
    requires
        0 <= i <= entries.len(),
    ensures
        rename_all(names, entries.take(i)).1 <= rename_all(names, entries).1,
    decreases entries.len(),
{
    if i == entries.len() {
        assert(entries.take(i) =~= entries);
    } else {
        let d = entries.drop_last();
        assert(entries.take(i) =~= d.take(i));
        lemma_counter_mono(names, d, i);
        let prev = rename_all(names, d);
        lemma_renamed_method(names, prev.0, entries.last(), prev.1);
    }
}

/// The entries of the first `a` `impl` blocks are a prefix of all entries.
proof fn lemma_flat_prefix<X>(s: Seq<InterfaceImpl<X>>, a: int)
    requires
        0 <= a <= s.len(),
    ensures
        flat_entries(s.take(a)) =~= flat_entries(s).take(flat_entries(s.take(a)).len() as int),
    decreases s.len(),
{
    if a == s.len() {
        assert(s.take(a) =~= s);
    } else {
        let d = s.drop_last();
        assert(d.take(a) =~= s.take(a));
        lemma_flat_prefix(d, a);
        lemma_flat_prefix_len(d, a);
    }
}

/// The entries read so far, `b` methods into the `impl` block at `a`, are a
/// prefix of all entries.
proof fn lemma_done_prefix<X>(s: Seq<InterfaceImpl<X>>, a: int, b: int)
    requires
        0 <= a < s.len(),
        0 <= b <= s[a].methods@.len(),
    ensures
        ({
            let done = flat_entries(s.take(a)) + impl_entries(s[a]).take(b);
            &&& done.len() <= flat_entries(s).len()
            &&& done == flat_entries(s).take(done.len() as int)
        }),
{
    assert(s.take(a + 1).drop_last() =~= s.take(a));
    assert(s.take(a + 1).last() == s[a]);
    let p = flat_entries(s.take(a + 1));
    assert(p == flat_entries(s.take(a)) + impl_entries(s[a]));
    lemma_flat_prefix(s, a + 1);
    lemma_flat_prefix_len(s, a + 1);
    let done = flat_entries(s.take(a)) + impl_entries(s[a]).take(b);
    assert(done =~= p.take(done.len() as int));
    assert(done =~= flat_entries(s).take(done.len() as int));
}

} // verus!
