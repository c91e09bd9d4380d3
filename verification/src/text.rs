//! Character-level text helpers shared by the identifier and literal builders.
use vstd::prelude::*;

verus! {

/// The lowercase mapping of a character, as `char::to_lowercase` yields it.
pub uninterp spec fn spec_char_lowercase(c: char) -> Seq<char>;

/// The uppercase mapping of a character, as `char::to_uppercase` yields it.
pub uninterp spec fn spec_char_uppercase(c: char) -> Seq<char>;

/// Whether a character has the Unicode `Uppercase` property.
pub uninterp spec fn spec_is_uppercase(c: char) -> bool;

/// The uppercase mapping of a whole string, as `str::to_uppercase` computes it.
pub uninterp spec fn spec_str_uppercase(s: Seq<char>) -> Seq<char>;


pub open spec fn is_ascii_char(c: char) -> bool {
    (c as u32) < 128
}

pub open spec fn is_ascii_upper(c: char) -> bool {
    'A' <= c && c <= 'Z'
}

pub open spec fn is_ascii_lower(c: char) -> bool {
    'a' <= c && c <= 'z'
}

pub open spec fn ascii_to_lower(c: char) -> char {
    if is_ascii_upper(c) {
        ((c as u32) + 32) as char
    } else {
        c
    }
}

pub open spec fn ascii_to_upper(c: char) -> char {
    if is_ascii_lower(c) {
        ((c as u32) - 32) as char
    } else {
        c
    }
}

pub open spec fn all_ascii(s: Seq<char>) -> bool {
    forall|i: int| 0 <= i < s.len() ==> is_ascii_char(#[trigger] s[i])
}

/// `char::is_uppercase`. For ASCII characters the uppercase ones are exactly
/// `'A'..='Z'`; beyond ASCII the result is the character's Unicode property.
#[verifier::external_body]
pub(crate) fn char_is_uppercase(c: char) -> (b: bool)
    ensures
        b == spec_is_uppercase(c),
        is_ascii_char(c) ==> (b <==> is_ascii_upper(c)),
{
    c.is_uppercase()
}

/// `char::to_lowercase`, collected. An ASCII character maps to its ASCII
/// lowercase form; other characters map to their Unicode lowercase mapping,
/// which may be several characters long.
#[verifier::external_body]
pub(crate) fn char_to_lowercase(c: char) -> (r: Vec<char>)
    ensures
        r@ == spec_char_lowercase(c),
        is_ascii_char(c) ==> r@ == seq![ascii_to_lower(c)],
{
    c.to_lowercase().collect()
}

/// `char::to_uppercase`, collected. An ASCII character maps to its ASCII
/// uppercase form; other characters map to their Unicode uppercase mapping,
/// which may be several characters long.
#[verifier::external_body]
pub(crate) fn char_to_uppercase(c: char) -> (r: Vec<char>)
    ensures
        r@ == spec_char_uppercase(c),
        is_ascii_char(c) ==> r@ == seq![ascii_to_upper(c)],
{
    c.to_uppercase().collect()
}

/// `str::to_uppercase`. On ASCII text it maps each character to its ASCII
/// uppercase form; beyond ASCII the result is the Unicode uppercase mapping.
#[verifier::external_body]
pub(crate) fn str_to_uppercase(s: &str) -> (r: String)
    ensures
        r@ == spec_str_uppercase(s@),
        all_ascii(s@) ==> r@ == s@.map_values(|c: char| ascii_to_upper(c)),
{
    s.to_uppercase()
}

/// The characters of a string slice, in order.
pub fn chars_of(s: &str) -> (r: Vec<char>)
    ensures
        r@ == s@,
{
    broadcast use vstd::string::axiom_spec_iter;
    let mut v: Vec<char> = Vec::new();
    for c in it: s.chars()
        invariant
            it.seq() == s@,
            v@.len() == it.index(),
            v@ == s@.take(v@.len() as int),
    {
        assert(s@.take(v@.len() as int + 1) =~= s@.take(v@.len() as int).push(c));
        v.push(c);
    }
    assert(s@.take(v@.len() as int) =~= s@);
    v
}

/// Collects characters into a `String` (`String::from_iter`).
#[verifier::external_body]
pub(crate) fn string_of(v: &Vec<char>) -> (r: String)
    ensures
        r@ == v@,
{
    String::from_iter(v.iter())
}

/// Appends all characters of `src` to `dst`.
pub fn push_all(dst: &mut Vec<char>, src: &Vec<char>)
    ensures
        final(dst)@ == old(dst)@ + src@,
{
    let mut i: usize = 0;
    while i < src.len()
        invariant
            i <= src.len(),
            dst@ == old(dst)@ + src@.take(i as int),
        decreases src.len() - i,
    {
        dst.push(src[i]);
        i = i + 1;
        assert(src@.take(i as int) == src@.take((i - 1) as int).push(src@[i - 1]));
    }
    assert(src@.take(src.len() as int) == src@);
}

/// Appends all characters of a string slice to `dst`.
pub fn push_str(dst: &mut Vec<char>, s: &str)
    ensures
        final(dst)@ == old(dst)@ + s@,
{
    let v = chars_of(s);
    push_all(dst, &v);
}

/// The character of the decimal digit `d % 10`.
pub open spec fn digit_char(d: nat) -> char {
    let r = d % 10;
    if r == 0 { '0' }
    else if r == 1 { '1' }
    else if r == 2 { '2' }
    else if r == 3 { '3' }
    else if r == 4 { '4' }
    else if r == 5 { '5' }
    else if r == 6 { '6' }
    else if r == 7 { '7' }
    else if r == 8 { '8' }
    else { '9' }
}

/// The value of a decimal digit character (`0` for any other character).
pub open spec fn digit_value(c: char) -> nat {
    if c == '1' { 1 }
    else if c == '2' { 2 }
    else if c == '3' { 3 }
    else if c == '4' { 4 }
    else if c == '5' { 5 }
    else if c == '6' { 6 }
    else if c == '7' { 7 }
    else if c == '8' { 8 }
    else if c == '9' { 9 }
    else { 0 }
}

/// The number that a string of decimal digits denotes.
pub open spec fn digits_value(s: Seq<char>) -> nat
    decreases s.len(),
{
    if s.len() == 0 {
        0
    } else {
        digits_value(s.drop_last()) * 10 + digit_value(s.last())
    }
}

proof fn lemma_div_mod_10(n: nat)
    ensures
        (n / 10) * 10 + n % 10 == n,
        n >= 10 ==> n / 10 < n,
{
}

proof fn lemma_digit_roundtrip(d: nat)
    requires
        d < 10,
    ensures
        digit_value(digit_char(d)) == d,
{
    assert(d % 10 == d);
}

/// `decimal(n)` denotes `n`.
pub proof fn lemma_decimal_value(n: nat)
    ensures
        digits_value(decimal(n)) == n,
    decreases n,
{
    lemma_div_mod_10(n);
    lemma_digit_roundtrip(n % 10);
    if n < 10 {
        assert(decimal(n).drop_last() =~= Seq::<char>::empty());
        assert(digits_value(Seq::<char>::empty()) == 0);
        assert(n % 10 == n);
        assert(decimal(n).last() == digit_char(n));
    } else {
        lemma_decimal_value(n / 10);
        let d = decimal(n);
        assert(d == decimal(n / 10).push(digit_char(n % 10)));
        assert(d.drop_last() =~= decimal(n / 10));
        assert(d.last() == digit_char(n % 10));
        assert(digits_value(d) == digits_value(d.drop_last()) * 10 + digit_value(d.last()));
    }
}

/// Leading zeros do not change the number that digits denote.
pub proof fn lemma_leading_zeros_value(k: nat, d: Seq<char>)
    ensures
        digits_value(Seq::new(k, |i: int| '0') + d) == digits_value(d),
    decreases d.len() + k,
{
    let z = Seq::new(k, |i: int| '0');
    if d.len() == 0 {
        assert(z + d =~= z);
        if k > 0 {
            assert(z.drop_last() =~= Seq::new((k - 1) as nat, |i: int| '0'));
            lemma_leading_zeros_value((k - 1) as nat, Seq::empty());
            assert(Seq::new((k - 1) as nat, |i: int| '0') + Seq::<char>::empty() =~= Seq::new((k - 1) as nat, |i: int| '0'));
        }
    } else {
        assert((z + d).drop_last() =~= z + d.drop_last());
        lemma_leading_zeros_value(k, d.drop_last());
    }
}

/// Zero-padded decimal representations of different numbers differ.
pub proof fn lemma_decimal_padded_injective(a: nat, b: nat, width: nat)
    requires
        decimal_padded(a, width) == decimal_padded(b, width),
    ensures
        a == b,
{
    lemma_decimal_value(a);
    lemma_decimal_value(b);
    let da = decimal(a);
    let db = decimal(b);
    if da.len() < width {
        lemma_leading_zeros_value((width - da.len()) as nat, da);
    }
    if db.len() < width {
        lemma_leading_zeros_value((width - db.len()) as nat, db);
    }
}

/// The decimal representation of a natural number, without leading zeros.
pub open spec fn decimal(n: nat) -> Seq<char>
    decreases n,
{
    if n < 10 {
        seq![digit_char(n)]
    } else {
        decimal(n / 10).push(digit_char(n % 10))
    }
}

/// The decimal representation of `n`, left-padded with `'0'` to at least
/// `width` characters (the `{:0width}` format).
pub open spec fn decimal_padded(n: nat, width: nat) -> Seq<char> {
    let d = decimal(n);
    if d.len() < width {
        Seq::new((width - d.len()) as nat, |i: int| '0') + d
    } else {
        d
    }
}

/// The decimal representation of `n`.
pub fn decimal_chars(n: u128) -> (r: Vec<char>)
    ensures
        r@ == decimal(n as nat),
    decreases n,
{
    if n < 10 {
        let c = digit_of(n);
        let mut v: Vec<char> = Vec::new();
        v.push(c);
        v
    } else {
        let mut v = decimal_chars(n / 10);
        let c = digit_of(n % 10);
        v.push(c);
        v
    }
}

fn digit_of(d: u128) -> (c: char)
    requires
        d < 10,
    ensures
        c == digit_char(d as nat),
{
    if d == 0 { '0' }
    else if d == 1 { '1' }
    else if d == 2 { '2' }
    else if d == 3 { '3' }
    else if d == 4 { '4' }
    else if d == 5 { '5' }
    else if d == 6 { '6' }
    else if d == 7 { '7' }
    else if d == 8 { '8' }
    else { '9' }
}

/// The decimal representation of `n` left-padded with zeros to `width`.
pub fn decimal_padded_chars(n: u128, width: usize) -> (r: Vec<char>)
    ensures
        r@ == decimal_padded(n as nat, width as nat),
{
    let d = decimal_chars(n);
    if d.len() < width {
        let mut v: Vec<char> = Vec::new();
        let pad = width - d.len();
        let mut i: usize = 0;
        while i < pad
            invariant
                i <= pad,
                v@ == Seq::new(i as nat, |k: int| '0'),
            decreases pad - i,
        {
            v.push('0');
            i = i + 1;
            assert(v@ =~= Seq::new(i as nat, |k: int| '0'));
        }
        push_all(&mut v, &d);
        v
    } else {
        d
    }
}

} // verus!
