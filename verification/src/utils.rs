//! Name conversions used when turning interface and method names into
//! generated item names.
use vstd::prelude::*;
use crate::text::{push_str, all_ascii, is_ascii_lower, ascii_to_lower, ascii_to_upper, is_ascii_char, is_ascii_upper, chars_of, char_is_uppercase, char_to_lowercase, char_to_uppercase, push_all, string_of, spec_char_lowercase, spec_char_uppercase, spec_is_uppercase};

verus! {

/// `snake_case` to `CamelCase`: the input is split at every `'_'` and the
/// first character of every piece is replaced by its uppercase mapping.
pub open spec fn snake_to_camel_from(s: Seq<char>, at_start: bool) -> Seq<char>
    decreases s.len(),
{
    if s.len() == 0 {
        Seq::empty()
    } else if s[0] == '_' {
        snake_to_camel_from(s.drop_first(), true)
    } else if at_start {
        spec_char_uppercase(s[0]) + snake_to_camel_from(s.drop_first(), false)
    } else {
        seq![s[0]] + snake_to_camel_from(s.drop_first(), false)
    }
}

pub open spec fn spec_snake_to_camel(s: Seq<char>) -> Seq<char> {
    snake_to_camel_from(s, true)
}

/// `CamelCase` to `snake_case`: every uppercase character is replaced by its
/// lowercase mapping, preceded by `'_'` when a non-uppercase character was
/// seen since the previous uppercase character.
pub open spec fn camel_to_snake_from(s: Seq<char>, seen_lowercase: bool) -> Seq<char>
    decreases s.len(),
{
    if s.len() == 0 {
        Seq::empty()
    } else if spec_is_uppercase(s[0]) {
        (if seen_lowercase { seq!['_'] } else { Seq::empty() }) + spec_char_lowercase(s[0])
            + camel_to_snake_from(s.drop_first(), false)
    } else {
        seq![s[0]] + camel_to_snake_from(s.drop_first(), true)
    }
}

pub open spec fn spec_camel_to_snake(s: Seq<char>) -> Seq<char> {
    camel_to_snake_from(s, false)
}

/// `snake_to_camel_from` on ASCII text, where the uppercase mapping is the
/// ASCII one.
pub open spec fn ascii_snake_to_camel_from(s: Seq<char>, at_start: bool) -> Seq<char>
    decreases s.len(),
{
    if s.len() == 0 {
        Seq::empty()
    } else if s[0] == '_' {
        ascii_snake_to_camel_from(s.drop_first(), true)
    } else if at_start {
        seq![ascii_to_upper(s[0])] + ascii_snake_to_camel_from(s.drop_first(), false)
    } else {
        seq![s[0]] + ascii_snake_to_camel_from(s.drop_first(), false)
    }
}

/// `camel_to_snake_from` on ASCII text, where the uppercase characters are
/// `'A'..='Z'` and the lowercase mapping is the ASCII one.
pub open spec fn ascii_camel_to_snake_from(s: Seq<char>, seen_lowercase: bool) -> Seq<char>
    decreases s.len(),
{
    if s.len() == 0 {
        Seq::empty()
    } else if is_ascii_upper(s[0]) {
        (if seen_lowercase { seq!['_'] } else { Seq::empty() }) + seq![ascii_to_lower(s[0])]
            + ascii_camel_to_snake_from(s.drop_first(), false)
    } else {
        seq![s[0]] + ascii_camel_to_snake_from(s.drop_first(), true)
    }
}

proof fn lemma_snake_step(s: Seq<char>, i: int, at_start: bool)
    requires
        0 <= i < s.len(),
    ensures
        snake_to_camel_from(s.skip(i), at_start) == if s[i] == '_' {
            snake_to_camel_from(s.skip(i + 1), true)
        } else if at_start {
            spec_char_uppercase(s[i]) + snake_to_camel_from(s.skip(i + 1), false)
        } else {
            seq![s[i]] + snake_to_camel_from(s.skip(i + 1), false)
        },
{
    assert(s.skip(i).drop_first() =~= s.skip(i + 1));
}

proof fn lemma_camel_step(s: Seq<char>, i: int, seen: bool)
    requires
        0 <= i < s.len(),
    ensures
        camel_to_snake_from(s.skip(i), seen) == if spec_is_uppercase(s[i]) {
            (if seen { seq!['_'] } else { Seq::empty() }) + spec_char_lowercase(s[i])
                + camel_to_snake_from(s.skip(i + 1), false)
        } else {
            seq![s[i]] + camel_to_snake_from(s.skip(i + 1), true)
        },
{
    assert(s.skip(i).drop_first() =~= s.skip(i + 1));
}

proof fn lemma_ascii_snake_step(s: Seq<char>, i: int, at_start: bool)
    requires
        0 <= i < s.len(),
    ensures
        ascii_snake_to_camel_from(s.skip(i), at_start) == if s[i] == '_' {
            ascii_snake_to_camel_from(s.skip(i + 1), true)
        } else if at_start {
            seq![ascii_to_upper(s[i])] + ascii_snake_to_camel_from(s.skip(i + 1), false)
        } else {
            seq![s[i]] + ascii_snake_to_camel_from(s.skip(i + 1), false)
        },
{
    assert(s.skip(i).drop_first() =~= s.skip(i + 1));
}

proof fn lemma_ascii_camel_step(s: Seq<char>, i: int, seen: bool)
    requires
        0 <= i < s.len(),
    ensures
        ascii_camel_to_snake_from(s.skip(i), seen) == if is_ascii_upper(s[i]) {
            (if seen { seq!['_'] } else { Seq::empty() }) + seq![ascii_to_lower(s[i])]
                + ascii_camel_to_snake_from(s.skip(i + 1), false)
        } else {
            seq![s[i]] + ascii_camel_to_snake_from(s.skip(i + 1), true)
        },
{
    assert(s.skip(i).drop_first() =~= s.skip(i + 1));
}

/// Converts `snake_case` into `CamelCase` (the name of a vtable field for a
/// method).
pub fn snake_to_camel(input: &str) -> (r: String)
    ensures
        r@ == spec_snake_to_camel(input@),
        all_ascii(input@) ==> r@ == ascii_snake_to_camel_from(input@, true),
{
    let s = chars_of(input);
    let mut out: Vec<char> = Vec::new();
    let mut at_start = true;
    let mut i: usize = 0;
    assert(s@.skip(0) =~= s@);
    while i < s.len()
        invariant
            i <= s.len(),
            s@ == input@,
            out@ + snake_to_camel_from(s@.skip(i as int), at_start) == spec_snake_to_camel(
                input@,
            ),
            all_ascii(input@) ==> out@ + ascii_snake_to_camel_from(s@.skip(i as int), at_start)
                == ascii_snake_to_camel_from(input@, true),
        decreases s.len() - i,
    {
        let c = s[i];
        proof {
            lemma_snake_step(s@, i as int, at_start);
            lemma_ascii_snake_step(s@, i as int, at_start);
        }
        if c == '_' {
            at_start = true;
        } else if at_start {
            let up = char_to_uppercase(c);
            assert(out@ + up@ + snake_to_camel_from(s@.skip(i + 1), false) =~= out@ + (up@
                + snake_to_camel_from(s@.skip(i + 1), false)));
            assert(out@ + up@ + ascii_snake_to_camel_from(s@.skip(i + 1), false) =~= out@ + (up@
                + ascii_snake_to_camel_from(s@.skip(i + 1), false)));
            assert(all_ascii(input@) ==> is_ascii_char(s@[i as int]));
            push_all(&mut out, &up);
            at_start = false;
        } else {
            assert(out@.push(c) + snake_to_camel_from(s@.skip(i + 1), false) =~= out@ + (seq![c]
                + snake_to_camel_from(s@.skip(i + 1), false)));
            assert(out@.push(c) + ascii_snake_to_camel_from(s@.skip(i + 1), false) =~= out@ + (
            seq![c] + ascii_snake_to_camel_from(s@.skip(i + 1), false)));
            out.push(c);
        }
        i = i + 1;
    }
    assert(s@.skip(i as int) =~= Seq::<char>::empty());
    assert(out@ + Seq::<char>::empty() =~= out@);
    string_of(&out)
}

/// Converts `CamelCase` into `snake_case` (used for the `IID_*` constant
/// names).
pub fn camel_to_snake(input: &str) -> (r: String)
    ensures
        r@ == spec_camel_to_snake(input@),
        all_ascii(input@) ==> r@ == ascii_camel_to_snake_from(input@, false),
        all_ascii(input@) ==> all_ascii(r@),
{
    proof {
        if all_ascii(input@) {
            lemma_camel_to_snake_ascii(input@, false);
        }
    }
    let s = chars_of(input);
    let mut out: Vec<char> = Vec::new();
    let mut seen_lowercase = false;
    let mut i: usize = 0;
    assert(s@.skip(0) =~= s@);
    while i < s.len()
        invariant
            i <= s.len(),
            s@ == input@,
            out@ + camel_to_snake_from(s@.skip(i as int), seen_lowercase) == spec_camel_to_snake(
                input@,
            ),
            all_ascii(input@) ==> out@ + ascii_camel_to_snake_from(
                s@.skip(i as int),
                seen_lowercase,
            ) == ascii_camel_to_snake_from(input@, false),
        decreases s.len() - i,
    {
        let c = s[i];
        proof {
            lemma_camel_step(s@, i as int, seen_lowercase);
            lemma_ascii_camel_step(s@, i as int, seen_lowercase);
            assert(all_ascii(input@) ==> is_ascii_char(s@[i as int]));
        }
        if char_is_uppercase(c) {
            let ghost before = out@;
            let ghost sep: Seq<char> = if seen_lowercase { seq!['_'] } else { Seq::empty() };
            if seen_lowercase {
                out.push('_');
            }
            assert(out@ == before + sep);
            let low = char_to_lowercase(c);
            push_all(&mut out, &low);
            assert(out@ + camel_to_snake_from(s@.skip(i + 1), false) =~= before + (sep + low@
                + camel_to_snake_from(s@.skip(i + 1), false)));
            assert(out@ + ascii_camel_to_snake_from(s@.skip(i + 1), false) =~= before + (sep
                + low@ + ascii_camel_to_snake_from(s@.skip(i + 1), false)));
            seen_lowercase = false;
        } else {
            assert(out@.push(c) + camel_to_snake_from(s@.skip(i + 1), true) =~= out@ + (seq![c]
                + camel_to_snake_from(s@.skip(i + 1), true)));
            assert(out@.push(c) + ascii_camel_to_snake_from(s@.skip(i + 1), true) =~= out@ + (
            seq![c] + ascii_camel_to_snake_from(s@.skip(i + 1), true)));
            out.push(c);
            seen_lowercase = true;
        }
        i = i + 1;
    }
    assert(s@.skip(i as int) =~= Seq::<char>::empty());
    assert(out@ + Seq::<char>::empty() =~= out@);
    string_of(&out)
}


/// On ASCII text, `snake_to_camel` removes every `'_'`: the vtable field
/// names it gives are free of underscores.
pub proof fn law_snake_to_camel_no_underscore(s: Seq<char>, at_start: bool)
    requires
        all_ascii(s),
    ensures
        !ascii_snake_to_camel_from(s, at_start).contains('_'),
    decreases s.len(),
{
    if s.len() > 0 {
        let rest = s.drop_first();
        assert(all_ascii(rest)) by {
            assert forall|i: int| 0 <= i < rest.len() implies is_ascii_char(#[trigger] rest[i]) by {
                assert(rest[i] == s[i + 1]);
            }
        }
        assert(is_ascii_char(s[0]));
        law_snake_to_camel_no_underscore(rest, true);
        law_snake_to_camel_no_underscore(rest, false);
        let out = ascii_snake_to_camel_from(s, at_start);
        if s[0] != '_' {
            let head = if at_start { ascii_to_upper(s[0]) } else { s[0] };
            let tail = ascii_snake_to_camel_from(rest, false);
            assert(out == seq![head] + tail);
            assert forall|i: int| 0 <= i < out.len() implies out[i] != '_' by {
                if i > 0 {
                    assert(out[i] == tail[i - 1]);
                }
            }
        }
    }
}

/// On ASCII text, `camel_to_snake` leaves no uppercase letter: the `IID_*`
/// names built from it are uppercased from all-lowercase text.
pub proof fn law_camel_to_snake_lowercase(s: Seq<char>, seen_lowercase: bool)
    requires
        all_ascii(s),
    ensures
        forall|i: int| 0 <= i < ascii_camel_to_snake_from(s, seen_lowercase).len()
            ==> !is_ascii_upper(#[trigger] ascii_camel_to_snake_from(s, seen_lowercase)[i]),
    decreases s.len(),
{
    if s.len() > 0 {
        let rest = s.drop_first();
        assert(all_ascii(rest)) by {
            assert forall|i: int| 0 <= i < rest.len() implies is_ascii_char(#[trigger] rest[i]) by {
                assert(rest[i] == s[i + 1]);
            }
        }
        law_camel_to_snake_lowercase(rest, true);
        law_camel_to_snake_lowercase(rest, false);
        let out = ascii_camel_to_snake_from(s, seen_lowercase);
        if is_ascii_upper(s[0]) {
            let sep: Seq<char> = if seen_lowercase { seq!['_'] } else { Seq::empty() };
            let tail = ascii_camel_to_snake_from(rest, false);
            let pre = sep + seq![ascii_to_lower(s[0])];
            assert(out == pre + tail);
            assert forall|i: int| 0 <= i < out.len() implies !is_ascii_upper(#[trigger] out[i]) by {
                if i >= pre.len() {
                    assert(out[i] == tail[i - pre.len()]);
                }
            }
        } else {
            let tail = ascii_camel_to_snake_from(rest, true);
            assert(out == seq![s[0]] + tail);
            assert forall|i: int| 0 <= i < out.len() implies !is_ascii_upper(#[trigger] out[i]) by {
                if i > 0 {
                    assert(out[i] == tail[i - 1]);
                }
            }
        }
    }
}

proof fn lemma_ascii_tail(s: Seq<char>)
    requires
        all_ascii(s),
        s.len() > 0,
    ensures
        all_ascii(s.drop_first()),
        is_ascii_char(s[0]),
{
    let rest = s.drop_first();
    assert forall|i: int| 0 <= i < rest.len() implies is_ascii_char(#[trigger] rest[i]) by {
        assert(rest[i] == s[i + 1]);
    }
}

/// `snake_to_camel` keeps ASCII text ASCII.
proof fn lemma_snake_to_camel_ascii(s: Seq<char>, at_start: bool)
    requires
        all_ascii(s),
    ensures
        all_ascii(ascii_snake_to_camel_from(s, at_start)),
    decreases s.len(),
{
    if s.len() > 0 {
        lemma_ascii_tail(s);
        let rest = s.drop_first();
        lemma_snake_to_camel_ascii(rest, true);
        lemma_snake_to_camel_ascii(rest, false);
        if s[0] != '_' {
            let head = if at_start { ascii_to_upper(s[0]) } else { s[0] };
            let tail = ascii_snake_to_camel_from(rest, false);
            let out = ascii_snake_to_camel_from(s, at_start);
            assert(out == seq![head] + tail);
            assert forall|i: int| 0 <= i < out.len() implies is_ascii_char(#[trigger] out[i]) by {
                if i > 0 {
                    assert(out[i] == tail[i - 1]);
                }
            }
        }
    }
}

/// `camel_to_snake` keeps ASCII text ASCII.
proof fn lemma_camel_to_snake_ascii(s: Seq<char>, seen_lowercase: bool)
    requires
        all_ascii(s),
    ensures
        all_ascii(ascii_camel_to_snake_from(s, seen_lowercase)),
    decreases s.len(),
{
    if s.len() > 0 {
        lemma_ascii_tail(s);
        let rest = s.drop_first();
        lemma_camel_to_snake_ascii(rest, true);
        lemma_camel_to_snake_ascii(rest, false);
        let out = ascii_camel_to_snake_from(s, seen_lowercase);
        if is_ascii_upper(s[0]) {
            let sep: Seq<char> = if seen_lowercase { seq!['_'] } else { Seq::empty() };
            let pre = sep + seq![ascii_to_lower(s[0])];
            let tail = ascii_camel_to_snake_from(rest, false);
            assert(out == pre + tail);
            assert forall|i: int| 0 <= i < out.len() implies is_ascii_char(#[trigger] out[i]) by {
                if i >= pre.len() {
                    assert(out[i] == tail[i - pre.len()]);
                }
            }
        } else {
            let tail = ascii_camel_to_snake_from(rest, true);
            assert(out == seq![s[0]] + tail);
            assert forall|i: int| 0 <= i < out.len() implies is_ascii_char(#[trigger] out[i]) by {
                if i > 0 {
                    assert(out[i] == tail[i - 1]);
                }
            }
        }
    }
}

proof fn lemma_no_underscore_kept(u: Seq<char>)
    requires
        !u.contains('_'),
    ensures
        ascii_snake_to_camel_from(u, false) == u,
    decreases u.len(),
{
    if u.len() > 0 {
        let rest = u.drop_first();
        assert(!rest.contains('_')) by {
            if rest.contains('_') {
                let i = choose|i: int| 0 <= i < rest.len() && rest[i] == '_';
                assert(u[i + 1] == '_');
            }
        }
        assert(u[0] != '_');
        lemma_no_underscore_kept(rest);
        assert(u =~= seq![u[0]] + rest);
    }
}

proof fn lemma_camel_first_not_lower(s: Seq<char>)
    ensures
        ascii_snake_to_camel_from(s, true).len() > 0 ==> !is_ascii_lower(ascii_snake_to_camel_from(s, true)[0]),
    decreases s.len(),
{
    if s.len() > 0 && s[0] == '_' {
        lemma_camel_first_not_lower(s.drop_first());
    }
}

/// `snake_to_camel` changes nothing in ASCII text it has already converted.
pub proof fn law_snake_to_camel_idempotent(s: Seq<char>)
    requires
        all_ascii(s),
    ensures
        all_ascii(ascii_snake_to_camel_from(s, true)),
        ascii_snake_to_camel_from(ascii_snake_to_camel_from(s, true), true) == ascii_snake_to_camel_from(s, true),
{
    let t = ascii_snake_to_camel_from(s, true);
    lemma_snake_to_camel_ascii(s, true);
    law_snake_to_camel_no_underscore(s, true);
    lemma_camel_first_not_lower(s);
    if t.len() > 0 {
        let rest = t.drop_first();
        assert(!rest.contains('_')) by {
            if rest.contains('_') {
                let i = choose|i: int| 0 <= i < rest.len() && rest[i] == '_';
                assert(t[i + 1] == '_');
            }
        }
        assert(t[0] != '_') by {
            if t[0] == '_' {
                assert(t.contains('_'));
            }
        }
        lemma_no_underscore_kept(rest);
        assert(t =~= seq![t[0]] + rest);
    }
}

/// ASCII letters, with no two uppercase letters next to each other.
pub open spec fn letters_apart(s: Seq<char>) -> bool {
    &&& forall|i: int| 0 <= i < s.len() ==> is_ascii_upper(#[trigger] s[i]) || is_ascii_lower(s[i])
    &&& forall|i: int| 0 <= i < s.len() - 1 ==> !(is_ascii_upper(#[trigger] s[i]) && is_ascii_upper(s[i + 1]))
}

/// A `CamelCase` name such as `QueryInterface` or `AddRef`: ASCII letters,
/// starting with an uppercase one, with no two uppercase letters next to
/// each other.
pub open spec fn camel_words(s: Seq<char>) -> bool {
    &&& s.len() > 0
    &&& is_ascii_upper(s[0])
    &&& letters_apart(s)
}

proof fn lemma_letters_apart_tail(s: Seq<char>)
    requires
        letters_apart(s),
        s.len() > 0,
    ensures
        letters_apart(s.drop_first()),
        is_ascii_upper(s[0]) && s.len() > 1 ==> is_ascii_lower(s[1]),
{
    let r = s.drop_first();
    assert forall|i: int| 0 <= i < r.len() implies is_ascii_upper(#[trigger] r[i]) || is_ascii_lower(r[i]) by {
        assert(r[i] == s[i + 1]);
    }
    assert forall|i: int| 0 <= i < r.len() - 1 implies !(is_ascii_upper(#[trigger] r[i]) && is_ascii_upper(r[i + 1])) by {
        assert(r[i] == s[i + 1]);
        assert(r[i + 1] == s[i + 2]);
    }
    if s.len() > 1 {
        assert(is_ascii_upper(s[1]) || is_ascii_lower(s[1]));
    }
}

/// Words after the first: `camel_to_snake` puts `'_'` before each capital
/// and lowercases it, and `snake_to_camel` undoes both.
proof fn lemma_camel_round_rest(s: Seq<char>)
    requires
        letters_apart(s),
        s.len() > 0 ==> is_ascii_lower(s[0]),
    ensures
        ascii_snake_to_camel_from(ascii_camel_to_snake_from(s, true), false) == s,
    decreases s.len(),
{
    if s.len() > 0 {
        lemma_letters_apart_tail(s);
        let s1 = s.drop_first();
        let c = s[0];
        assert(!is_ascii_upper(c));
        let y = ascii_camel_to_snake_from(s1, true);
        assert(ascii_camel_to_snake_from(s, true) == seq![c] + y);
        assert((seq![c] + y).drop_first() =~= y);
        assert((seq![c] + y)[0] == c);
        assert(c != '_');
        assert(ascii_snake_to_camel_from(seq![c] + y, false) == seq![c] + ascii_snake_to_camel_from(y, false));
        if s1.len() == 0 || is_ascii_lower(s1[0]) {
            lemma_camel_round_rest(s1);
        } else {
            let u = s1[0];
            assert(is_ascii_upper(u) || is_ascii_lower(u));
            assert(is_ascii_upper(u));
            lemma_letters_apart_tail(s1);
            let s2 = s1.drop_first();
            let z = ascii_camel_to_snake_from(s2, false);
            assert(z == ascii_camel_to_snake_from(s2, true)) by {
                if s2.len() > 0 {
                    assert(is_ascii_lower(s2[0]));
                }
            }
            let lu = ascii_to_lower(u);
            assert(y == seq!['_'] + seq![lu] + z);
            assert((seq!['_'] + seq![lu] + z)[0] == '_');
            assert((seq!['_'] + seq![lu] + z).drop_first() =~= seq![lu] + z);
            assert((seq![lu] + z)[0] == lu);
            assert((seq![lu] + z).drop_first() =~= z);
            assert(is_ascii_lower(lu));
            assert(ascii_to_upper(lu) == u);
            assert(lu != '_');
            assert(ascii_snake_to_camel_from(y, false) == ascii_snake_to_camel_from(seq![lu] + z, true));
            assert(ascii_snake_to_camel_from(seq![lu] + z, true) == seq![u] + ascii_snake_to_camel_from(z, false));
            lemma_camel_round_rest(s2);
            assert(s1 =~= seq![u] + s2);
        }
        assert(s =~= seq![c] + s1);
    }
}

/// A `CamelCase` name without adjacent capitals comes back unchanged from
/// `camel_to_snake` followed by `snake_to_camel`.
pub proof fn law_camel_snake_camel(s: Seq<char>)
    requires
        camel_words(s),
    ensures
        all_ascii(s),
        all_ascii(ascii_camel_to_snake_from(s, false)),
        ascii_snake_to_camel_from(ascii_camel_to_snake_from(s, false), true) == s,
{
    assert(all_ascii(s)) by {
        assert forall|i: int| 0 <= i < s.len() implies is_ascii_char(#[trigger] s[i]) by {
            assert(is_ascii_upper(s[i]) || is_ascii_lower(s[i]));
        }
    }
    lemma_camel_to_snake_ascii(s, false);
    lemma_letters_apart_tail(s);
    let u = s[0];
    let s1 = s.drop_first();
    let lu = ascii_to_lower(u);
    let z = ascii_camel_to_snake_from(s1, false);
    assert(z == ascii_camel_to_snake_from(s1, true)) by {
        if s1.len() > 0 {
            assert(is_ascii_lower(s1[0]));
        }
    }
    assert(ascii_camel_to_snake_from(s, false) == Seq::<char>::empty() + seq![lu] + z);
    assert(Seq::<char>::empty() + seq![lu] + z =~= seq![lu] + z);
    assert((seq![lu] + z)[0] == lu);
    assert((seq![lu] + z).drop_first() =~= z);
    assert(is_ascii_lower(lu));
    assert(lu != '_');
    assert(ascii_to_upper(lu) == u);
    assert(ascii_snake_to_camel_from(seq![lu] + z, true) == seq![u] + ascii_snake_to_camel_from(z, false));
    lemma_camel_round_rest(s1);
    assert(s =~= seq![u] + s1);
}

/// The rest of a lowercase word, then more words (see `snake_words`).
pub open spec fn word_rest(s: Seq<char>) -> bool
    decreases s.len(),
{
    if s.len() == 0 {
        true
    } else if is_ascii_lower(s[0]) {
        word_rest(s.drop_first())
    } else if s[0] == '_' {
        snake_words(s.drop_first())
    } else {
        false
    }
}

/// A `snake_case` name such as `query_interface`: words of at least two
/// lowercase ASCII letters, joined by single `'_'`.
pub open spec fn snake_words(s: Seq<char>) -> bool
    decreases s.len(),
{
    if s.len() >= 2 {
        is_ascii_lower(s[0]) && is_ascii_lower(s[1]) && word_rest(s.skip(2))
    } else {
        false
    }
}

proof fn lemma_snake_round_rest(s: Seq<char>)
    requires
        word_rest(s),
    ensures
        ascii_camel_to_snake_from(ascii_snake_to_camel_from(s, false), true) == s,
    decreases s.len(), 1nat,
{
    if s.len() > 0 {
        let s1 = s.drop_first();
        let c = s[0];
        if is_ascii_lower(c) {
            let y = ascii_snake_to_camel_from(s1, false);
            assert(ascii_snake_to_camel_from(s, false) == seq![c] + y);
            assert((seq![c] + y)[0] == c);
            assert((seq![c] + y).drop_first() =~= y);
            assert(!is_ascii_upper(c));
            lemma_snake_round_rest(s1);
            assert(s =~= seq![c] + s1);
        } else {
            assert(c == '_');
            lemma_snake_round_start(s1, true);
            assert(s =~= seq!['_'] + s1);
        }
    }
}

proof fn lemma_snake_round_start(s: Seq<char>, seen: bool)
    requires
        snake_words(s),
    ensures
        ascii_camel_to_snake_from(ascii_snake_to_camel_from(s, true), seen)
            == (if seen { seq!['_'] } else { Seq::<char>::empty() }) + s,
    decreases s.len(), 0nat,
{
    let c0 = s[0];
    let c1 = s[1];
    let s1 = s.drop_first();
    let s2 = s.skip(2);
    assert(s1.drop_first() =~= s2);
    assert(s1[0] == c1);
    let u = ascii_to_upper(c0);
    assert(is_ascii_upper(u));
    assert(ascii_to_lower(u) == c0);
    let z = ascii_snake_to_camel_from(s2, false);
    assert(ascii_snake_to_camel_from(s1, false) == seq![c1] + z);
    assert(ascii_snake_to_camel_from(s, true) == seq![u] + (seq![c1] + z));
    let x = seq![u] + (seq![c1] + z);
    assert(x[0] == u);
    assert(x.drop_first() =~= seq![c1] + z);
    assert((seq![c1] + z)[0] == c1);
    assert((seq![c1] + z).drop_first() =~= z);
    assert(!is_ascii_upper(c1));
    let sep: Seq<char> = if seen { seq!['_'] } else { Seq::empty() };
    assert(ascii_camel_to_snake_from(x, seen) == sep + seq![c0] + ascii_camel_to_snake_from(seq![c1] + z, false));
    assert(ascii_camel_to_snake_from(seq![c1] + z, false) == seq![c1] + ascii_camel_to_snake_from(z, true));
    lemma_snake_round_rest(s2);
    assert(s =~= seq![c0] + (seq![c1] + s2));
    assert(sep + seq![c0] + (seq![c1] + s2) =~= sep + s);
}

/// A `snake_case` name of words of two or more lowercase letters comes back
/// unchanged from `snake_to_camel` followed by `camel_to_snake`.
pub proof fn law_snake_camel_snake(s: Seq<char>)
    requires
        snake_words(s),
    ensures
        ascii_camel_to_snake_from(ascii_snake_to_camel_from(s, true), false) == s,
{
    lemma_snake_round_start(s, false);
    assert(Seq::<char>::empty() + s =~= s);
}

/// The name of the class factory of a class: `{class}ClassFactory`.
pub fn class_factory_ident(class_ident: &str) -> (r: String)
    ensures
        r@ == class_ident@ + "ClassFactory"@,
{
    let mut s = chars_of(class_ident);
    push_str(&mut s, "ClassFactory");
    string_of(&s)
}

/// The name of the reference count field of a class: `__refcnt`.
pub fn ref_count_ident() -> (r: String)
    ensures
        r@ == "__refcnt"@,
{
    let s = chars_of("__refcnt");
    string_of(&s)
}
} // verus!
