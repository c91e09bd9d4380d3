//! Interface identifiers: `#[uuid("XXXXXXXX-XXXX-XXXX-XXXX-XXXXXXXXXXXX")]`.
use vstd::prelude::*;
use crate::text::{all_ascii, ascii_to_upper, is_ascii_char, chars_of, decimal, decimal_chars, push_all, push_str, string_of, spec_str_uppercase, str_to_uppercase};
use crate::utils::{ascii_camel_to_snake_from, camel_to_snake, spec_camel_to_snake};

verus! {

/// The number of bytes of the UTF-8 encoding of a character (`char::len_utf8`).
pub open spec fn char_utf8_len(c: char) -> nat {
    if (c as u32) < 0x80 {
        1
    } else if (c as u32) < 0x800 {
        2
    } else if (c as u32) < 0x10000 {
        3
    } else {
        4
    }
}

/// The number of bytes of the UTF-8 encoding of a string (`str::len`).
pub open spec fn utf8_len(s: Seq<char>) -> nat
    decreases s.len(),
{
    if s.len() == 0 {
        0
    } else {
        utf8_len(s.drop_last()) + char_utf8_len(s.last())
    }
}

/// The pieces of `s` between the `'-'` characters (`str::split('-')`); there
/// is always at least one piece.
pub open spec fn split_dash(s: Seq<char>) -> Seq<Seq<char>>
    decreases s.len(),
{
    if s.len() == 0 {
        seq![Seq::empty()]
    } else {
        let p = split_dash(s.drop_last());
        if s.last() == '-' {
            p.push(Seq::empty())
        } else {
            p.update(p.len() - 1, p.last().push(s.last()))
        }
    }
}

/// The pieces joined back together with `'-'` between them.
pub open spec fn join_dash(pieces: Seq<Seq<char>>) -> Seq<char>
    decreases pieces.len(),
{
    if pieces.len() == 0 {
        Seq::empty()
    } else if pieces.len() == 1 {
        pieces[0]
    } else {
        join_dash(pieces.drop_last()) + seq!['-'] + pieces.last()
    }
}

/// Splitting at `'-'` loses nothing and splits at every `'-'`: no piece
/// holds a `'-'`, and joining the pieces with `'-'` gives the text back.
pub proof fn law_split_dash(s: Seq<char>)
    ensures
        split_dash(s).len() >= 1,
        join_dash(split_dash(s)) == s,
        forall|k: int| 0 <= k < split_dash(s).len() ==> !(#[trigger] split_dash(s)[k]).contains('-'),
    decreases s.len(),
{
    if s.len() == 0 {
        assert(join_dash(split_dash(s)) =~= s);
    } else {
        let d = s.drop_last();
        law_split_dash(d);
        let p = split_dash(d);
        let c = s.last();
        let n = p.len();
        if c == '-' {
            let q = p.push(Seq::<char>::empty());
            assert(q.drop_last() =~= p);
            assert(join_dash(q) =~= s);
            assert forall|k: int| 0 <= k < q.len() implies !(#[trigger] q[k]).contains('-') by {
                if k < n {
                    assert(q[k] == p[k]);
                }
            }
        } else {
            let x = p.last().push(c);
            let q = p.update(n - 1, x);
            if n == 1 {
                assert(join_dash(q) =~= join_dash(p).push(c));
            } else {
                assert(q.drop_last() =~= p.drop_last());
                assert(join_dash(q) =~= join_dash(p).push(c));
            }
            assert(s =~= d.push(c));
            assert forall|k: int| 0 <= k < q.len() implies !(#[trigger] q[k]).contains('-') by {
                if k < n - 1 {
                    assert(q[k] == p[k]);
                } else {
                    assert(q[k] == x);
                    assert(!p[n - 1].contains('-'));
                    if x.contains('-') {
                        let i = choose|i: int| 0 <= i < x.len() && x[i] == '-';
                        if i < x.len() - 1 {
                            assert(p[n - 1][i] == '-');
                        }
                    }
                }
            }
        }
    }
}

/// The length, in bytes, that the part at `index` of an IID must have.
pub open spec fn expected_len(index: int) -> nat {
    if index == 0 {
        8
    } else if index == 4 {
        12
    } else {
        4
    }
}

/// Part `index` of `pieces` is present and has the expected length.
pub open spec fn part_ok(pieces: Seq<Seq<char>>, index: int) -> bool {
    index < pieces.len() && utf8_len(pieces[index]) == expected_len(index)
}

/// The five parts an IID needs are 8, 4, 4, 4 and 12 bytes long, in that
/// order (`XXXXXXXX-XXXX-XXXX-XXXX-XXXXXXXXXXXX`).
pub proof fn law_iid_format(pieces: Seq<Seq<char>>)
    ensures
        (forall|i: int| 0 <= i < 5 ==> #[trigger] part_ok(pieces, i)) <==> {
            &&& pieces.len() >= 5
            &&& utf8_len(pieces[0]) == 8
            &&& utf8_len(pieces[1]) == 4
            &&& utf8_len(pieces[2]) == 4
            &&& utf8_len(pieces[3]) == 4
            &&& utf8_len(pieces[4]) == 12
        },
{
    if forall|i: int| 0 <= i < 5 ==> #[trigger] part_ok(pieces, i) {
        assert(part_ok(pieces, 0));
        assert(part_ok(pieces, 1));
        assert(part_ok(pieces, 2));
        assert(part_ok(pieces, 3));
        assert(part_ok(pieces, 4));
    }
}

/// Why an IID string was refused.
#[derive(Debug)]
pub enum IidError {
    /// Fewer than `index + 1` parts.
    MissingPart { index: usize },
    /// The part at `index` is `actual` bytes long instead of `expected`.
    WrongLength { index: usize, expected: usize, actual: u128 },
}

/// The error for the first part that is not as required, at `index`.
pub open spec fn part_error(pieces: Seq<Seq<char>>, index: int) -> IidError {
    if index >= pieces.len() {
        IidError::MissingPart { index: index as usize }
    } else {
        IidError::WrongLength {
            index: index as usize,
            expected: expected_len(index) as usize,
            actual: utf8_len(pieces[index]) as u128,
        }
    }
}

/// An interface identifier: its five `'-'`-separated parts, of 8, 4, 4, 4
/// and 12 bytes.
#[derive(Debug)]
pub struct IID {
    pub parts: [String; 5],
}

fn utf8_len_of(s: &Vec<char>) -> (r: u128)
    ensures
        r == utf8_len(s@),
{
    let mut n: u128 = 0;
    let mut i: usize = 0;
    while i < s.len()
        invariant
            i <= s@.len(),
            n == utf8_len(s@.take(i as int)),
            n <= 4 * i,
        decreases s@.len() - i,
    {
        assert(s@.take(i + 1).drop_last() =~= s@.take(i as int));
        let c = s[i];
        let w: u128 = if (c as u32) < 0x80 {
            1
        } else if (c as u32) < 0x800 {
            2
        } else if (c as u32) < 0x10000 {
            3
        } else {
            4
        };
        n = n + w;
        i = i + 1;
    }
    assert(s@.take(s@.len() as int) =~= s@);
    n
}

/// Splits `s` at every `'-'`.
fn split_on_dash(s: &Vec<char>) -> (r: Vec<Vec<char>>)
    ensures
        r@.len() == split_dash(s@).len(),
        forall|k: int| 0 <= k < r@.len() ==> (#[trigger] r@[k])@ == split_dash(s@)[k],
{
    let mut pieces: Vec<Vec<char>> = Vec::new();
    let mut cur: Vec<char> = Vec::new();
    let mut i: usize = 0;
    while i < s.len()
        invariant
            i <= s@.len(),
            pieces@.len() + 1 == split_dash(s@.take(i as int)).len(),
            forall|k: int| 0 <= k < pieces@.len() ==> (#[trigger] pieces@[k])@ == split_dash(s@.take(i as int))[k],
            cur@ == split_dash(s@.take(i as int)).last(),
        decreases s@.len() - i,
    {
        assert(s@.take(i + 1).drop_last() =~= s@.take(i as int));
        let c = s[i];
        if c == '-' {
            let done = cur;
            pieces.push(done);
            cur = Vec::new();
        } else {
            cur.push(c);
        }
        i = i + 1;
    }
    assert(s@.take(s@.len() as int) =~= s@);
    pieces.push(cur);
    pieces
}

impl IID {
    /// Parses the value of a `uuid` attribute: it is split at `'-'`, and the
    /// first five pieces must be present and be 8, 4, 4, 4 and 12 bytes
    /// long; further pieces are ignored. The first piece that is missing or
    /// of the wrong length gives the error.
    pub fn parse(iid_value: &str) -> (r: Result<IID, IidError>)
        ensures
            ({
                let pieces = split_dash(iid_value@);
                &&& r is Ok <==> forall|i: int| 0 <= i < 5 ==> #[trigger] part_ok(pieces, i)
                &&& r matches Ok(iid) ==> forall|i: int| 0 <= i < 5 ==> (#[trigger] iid.parts@[i])@ == pieces[i]
                &&& r matches Err(e) ==> exists|f: int| 0 <= f < 5 && !part_ok(pieces, f) && (forall|i: int| 0 <= i < f ==> #[trigger] part_ok(pieces, i)) && e == #[trigger] part_error(pieces, f)
            }),
    {
        let s = chars_of(iid_value);
        let pieces = split_on_dash(&s);
        let ghost sp = split_dash(iid_value@);
        let mut parts: Vec<String> = Vec::new();
        let mut i: usize = 0;
        while i < 5
            invariant
                i <= 5,
                s@ == iid_value@,
                sp == split_dash(iid_value@),
                pieces@.len() == sp.len(),
                forall|k: int| 0 <= k < pieces@.len() ==> (#[trigger] pieces@[k])@ == sp[k],
                parts@.len() == i,
                forall|k: int| 0 <= k < i ==> #[trigger] part_ok(sp, k),
                forall|k: int| 0 <= k < i ==> (#[trigger] parts@[k])@ == sp[k],
            decreases 5 - i,
        {
            let expected: u128 = if i == 0 {
                8
            } else if i == 4 {
                12
            } else {
                4
            };
            if i >= pieces.len() {
                assert(!part_ok(sp, i as int));
                assert(part_error(sp, i as int) == IidError::MissingPart { index: i });
                return Err(IidError::MissingPart { index: i });
            }
            let actual = utf8_len_of(&pieces[i]);
            if actual != expected {
                assert(!part_ok(sp, i as int));
                assert(part_error(sp, i as int) == IidError::WrongLength { index: i, expected: expected as usize, actual });
                return Err(IidError::WrongLength { index: i, expected: expected as usize, actual });
            }
            parts.push(string_of(&pieces[i]));
            i = i + 1;
        }
        let p4 = parts.pop().unwrap();
        let p3 = parts.pop().unwrap();
        let p2 = parts.pop().unwrap();
        let p1 = parts.pop().unwrap();
        let p0 = parts.pop().unwrap();
        let iid = IID { parts: [p0, p1, p2, p3, p4] };
        assert(iid.parts@ =~= seq![p0, p1, p2, p3, p4]);
        Ok(iid)
    }
}

impl IidError {
    pub open spec fn spec_message(&self) -> Seq<char> {
        match self {
            IidError::MissingPart { index } => "The IID missing part at index "@ + decimal(*index as nat),
            IidError::WrongLength { index, expected, actual } => "The IID part at index "@ + decimal(*index as nat) + " must be "@ + decimal(*expected as nat) + " characters long but was "@ + decimal(*actual as nat) + " characters"@,
        }
    }

    /// The message of the error.
    pub fn message(&self) -> (r: String)
        ensures
            r@ == self.spec_message(),
    {
        match self {
            IidError::MissingPart { index } => {
                let mut s = chars_of("The IID missing part at index ");
                let d = decimal_chars(*index as u128);
                push_all(&mut s, &d);
                string_of(&s)
            },
            IidError::WrongLength { index, expected, actual } => {
                let mut s = chars_of("The IID part at index ");
                let d = decimal_chars(*index as u128);
                push_all(&mut s, &d);
                push_str(&mut s, " must be ");
                let d = decimal_chars(*expected as u128);
                push_all(&mut s, &d);
                push_str(&mut s, " characters long but was ");
                let d = decimal_chars(*actual);
                push_all(&mut s, &d);
                push_str(&mut s, " characters");
                string_of(&s)
            },
        }
    }
}

/// The name of the constant holding an interface's IID:
/// `IID_` followed by the interface name in upper snake case.
pub fn ident(interface_ident: &str) -> (r: String)
    ensures
        r@ == "IID_"@ + spec_str_uppercase(spec_camel_to_snake(interface_ident@)),
        all_ascii(interface_ident@) ==> r@ == "IID_"@ + ascii_camel_to_snake_from(interface_ident@, false).map_values(|c: char| ascii_to_upper(c)),
{
    let snake = camel_to_snake(interface_ident);
    let upper = str_to_uppercase(snake.as_str());
    let mut s = chars_of("IID_");
    push_str(&mut s, upper.as_str());
    string_of(&s)
}


/// `0x{digits}`, a hexadecimal integer literal.
pub open spec fn hex_lit(digits: Seq<char>) -> Seq<char> {
    seq!['0', 'x'] + digits
}

/// The number of characters of `s` that make up its first `b` bytes, when
/// byte `b` is a character boundary.
pub open spec fn is_boundary(s: Seq<char>, b: nat, k: int) -> bool {
    0 <= k <= s.len() && utf8_len(s.take(k)) == b
}

/// Byte `b` of `s` is a character boundary.
pub open spec fn has_boundary(s: Seq<char>, b: nat) -> bool {
    exists|k: int| #[trigger] is_boundary(s, b, k)
}

/// The literals of the IID constant of an interface.
#[derive(Debug)]
pub struct IidConst {
    /// The name of the constant (`IID_...`).
    pub ident: String,
    pub data1: String,
    pub data2: String,
    pub data3: String,
    /// Eight one-byte literals.
    pub data4: Vec<String>,
}

fn char_index_of_byte(s: &Vec<char>, b: u128) -> (r: Option<usize>)
    ensures
        r matches Some(k) ==> is_boundary(s@, b as nat, k as int),
        r is None ==> forall|k: int| !#[trigger] is_boundary(s@, b as nat, k),
{
    let mut n: u128 = 0;
    let mut i: usize = 0;
    loop
        invariant
            i <= s@.len(),
            n == utf8_len(s@.take(i as int)),
            n <= 4 * i,
            forall|k: int| 0 <= k < i ==> !#[trigger] is_boundary(s@, b as nat, k),
        decreases s@.len() - i,
    {
        if n == b {
            return Some(i);
        }
        if i == s.len() {
            return None;
        }
        assert(s@.take(i + 1).drop_last() =~= s@.take(i as int));
        let c = s[i];
        let w: u128 = if (c as u32) < 0x80 {
            1
        } else if (c as u32) < 0x800 {
            2
        } else if (c as u32) < 0x10000 {
            3
        } else {
            4
        };
        n = n + w;
        i = i + 1;
    }
}

/// `0x` followed by the characters `from..to` of `s`.
fn hex_slice(s: &Vec<char>, from: usize, to: usize) -> (r: String)
    requires
        from <= to <= s@.len(),
    ensures
        r@ == hex_lit(s@.subrange(from as int, to as int)),
{
    let mut v: Vec<char> = Vec::new();
    v.push('0');
    v.push('x');
    let mut i = from;
    while i < to
        invariant
            from <= i <= to,
            to <= s@.len(),
            v@ == hex_lit(s@.subrange(from as int, i as int)),
        decreases to - i,
    {
        v.push(s[i]);
        i = i + 1;
        assert(v@ =~= hex_lit(s@.subrange(from as int, i as int)));
    }
    string_of(&v)
}

impl IID {
    /// The constant that holds this IID for the interface `interface_ident`:
    /// its name, and the literals `0x{part 0}`, `0x{part 1}`, `0x{part 2}`
    /// and the eight two-byte pieces of parts 3 and 4.
    ///
    /// `None` when one of the byte positions 2 of part 3, or 2, 4, 6, 8, 10
    /// of part 4, is no character boundary (or lies beyond the part).
    pub fn to_tokens(&self, interface_ident: &str) -> (r: Option<IidConst>)
        ensures
            ({
                let p3 = self.parts@[3]@;
                let p4 = self.parts@[4]@;
                let bounds_ok = has_boundary(p3, 2) && has_boundary(p4, 2) && has_boundary(p4, 4)
                    && has_boundary(p4, 6) && has_boundary(p4, 8) && has_boundary(p4, 10);
                &&& r is Some <==> bounds_ok
                &&& r matches Some(c) ==> {
                    &&& c.ident@ == "IID_"@ + spec_str_uppercase(spec_camel_to_snake(interface_ident@))
                    &&& all_ascii(interface_ident@) ==> c.ident@ == "IID_"@ + ascii_camel_to_snake_from(interface_ident@, false).map_values(|c: char| ascii_to_upper(c))
                    &&& c.data1@ == hex_lit(self.parts@[0]@)
                    &&& c.data2@ == hex_lit(self.parts@[1]@)
                    &&& c.data3@ == hex_lit(self.parts@[2]@)
                    &&& c.data4@.len() == 8
                    &&& exists|k: int| #[trigger] is_boundary(p3, 2, k) && c.data4@[0]@ == hex_lit(p3.take(k)) && c.data4@[1]@ == hex_lit(p3.skip(k))
                    &&& exists|k2: int, k4: int, k6: int, k8: int, k10: int| {
                        &&& #[trigger] is_boundary(p4, 2, k2)
                        &&& #[trigger] is_boundary(p4, 4, k4)
                        &&& #[trigger] is_boundary(p4, 6, k6)
                        &&& #[trigger] is_boundary(p4, 8, k8)
                        &&& #[trigger] is_boundary(p4, 10, k10)
                        &&& c.data4@[2]@ == hex_lit(p4.subrange(0, k2))
                        &&& c.data4@[3]@ == hex_lit(p4.subrange(k2, k4))
                        &&& c.data4@[4]@ == hex_lit(p4.subrange(k4, k6))
                        &&& c.data4@[5]@ == hex_lit(p4.subrange(k6, k8))
                        &&& c.data4@[6]@ == hex_lit(p4.subrange(k8, k10))
                        &&& c.data4@[7]@ == hex_lit(p4.subrange(k10, p4.len() as int))
                    }
                }
            }),
    {
        let p0 = chars_of(self.parts[0].as_str());
        let p1 = chars_of(self.parts[1].as_str());
        let p2 = chars_of(self.parts[2].as_str());
        let p3 = chars_of(self.parts[3].as_str());
        let p4 = chars_of(self.parts[4].as_str());
        let k3 = match char_index_of_byte(&p3, 2) {
            Some(k) => k,
            None => {
                return None;
            },
        };
        let mut ks: Vec<usize> = Vec::new();
        let mut b: u128 = 2;
        while b <= 10
            invariant
                2 <= b <= 12,
                b % 2 == 0,
                ks@.len() == (b - 2) / 2,
                forall|j: int| 0 <= j < ks@.len() ==> is_boundary(p4@, (2 * j + 2) as nat, #[trigger] ks@[j] as int),
                p4@ == self.parts@[4]@,
            decreases 12 - b,
        {
            match char_index_of_byte(&p4, b) {
                Some(k) => {
                    ks.push(k);
                },
                None => {
                    assert(!has_boundary(p4@, b as nat));
                    assert(b == 2 || b == 4 || b == 6 || b == 8 || b == 10);
                    return None;
                },
            }
            b = b + 2;
        }
        assert(ks@.len() == 5);
        let k2 = ks[0];
        let k4 = ks[1];
        let k6 = ks[2];
        let k8 = ks[3];
        let k10 = ks[4];
        assert(is_boundary(p4@, 2, k2 as int));
        assert(is_boundary(p4@, 4, k4 as int));
        assert(is_boundary(p4@, 6, k6 as int));
        assert(is_boundary(p4@, 8, k8 as int));
        assert(is_boundary(p4@, 10, k10 as int));
        proof {
            lemma_boundary_monotone(p4@, 2, 4, k2 as int, k4 as int);
            lemma_boundary_monotone(p4@, 4, 6, k4 as int, k6 as int);
            lemma_boundary_monotone(p4@, 6, 8, k6 as int, k8 as int);
            lemma_boundary_monotone(p4@, 8, 10, k8 as int, k10 as int);
        }
        let mut data4: Vec<String> = Vec::new();
        data4.push(hex_slice(&p3, 0, k3));
        data4.push(hex_slice(&p3, k3, p3.len()));
        data4.push(hex_slice(&p4, 0, k2));
        data4.push(hex_slice(&p4, k2, k4));
        data4.push(hex_slice(&p4, k4, k6));
        data4.push(hex_slice(&p4, k6, k8));
        data4.push(hex_slice(&p4, k8, k10));
        data4.push(hex_slice(&p4, k10, p4.len()));
        assert(p3@.subrange(0, k3 as int) =~= p3@.take(k3 as int));
        assert(p3@.subrange(k3 as int, p3@.len() as int) =~= p3@.skip(k3 as int));
        let c = IidConst {
            ident: ident(interface_ident),
            data1: hex_slice(&p0, 0, p0.len()),
            data2: hex_slice(&p1, 0, p1.len()),
            data3: hex_slice(&p2, 0, p2.len()),
            data4,
        };
        assert(p0@.subrange(0, p0@.len() as int) =~= p0@);
        assert(p1@.subrange(0, p1@.len() as int) =~= p1@);
        assert(p2@.subrange(0, p2@.len() as int) =~= p2@);
        Some(c)
    }
}

proof fn lemma_ascii_utf8_len(s: Seq<char>)
    requires
        all_ascii(s),
    ensures
        utf8_len(s) == s.len(),
    decreases s.len(),
{
    if s.len() > 0 {
        let d = s.drop_last();
        assert(all_ascii(d)) by {
            assert forall|i: int| 0 <= i < d.len() implies is_ascii_char(#[trigger] d[i]) by {
                assert(d[i] == s[i]);
            }
        }
        lemma_ascii_utf8_len(d);
        assert(is_ascii_char(s[s.len() - 1]));
    }
}

proof fn lemma_ascii_boundary(s: Seq<char>, b: nat)
    requires
        all_ascii(s),
        b <= s.len(),
    ensures
        has_boundary(s, b),
{
    let t = s.take(b as int);
    assert(all_ascii(t)) by {
        assert forall|i: int| 0 <= i < t.len() implies is_ascii_char(#[trigger] t[i]) by {
            assert(t[i] == s[i]);
        }
    }
    lemma_ascii_utf8_len(t);
    assert(is_boundary(s, b, b as int));
}

/// An IID whose last two parts are ASCII (as hexadecimal digits are) and
/// have the lengths that `parse` demands can always be rendered: every byte
/// at which `to_tokens` splits them is a character boundary.
pub proof fn law_ascii_iid_renders(iid: IID)
    requires
        all_ascii(iid.parts@[3]@),
        all_ascii(iid.parts@[4]@),
        utf8_len(iid.parts@[3]@) == 4,
        utf8_len(iid.parts@[4]@) == 12,
    ensures
        has_boundary(iid.parts@[3]@, 2),
        has_boundary(iid.parts@[4]@, 2),
        has_boundary(iid.parts@[4]@, 4),
        has_boundary(iid.parts@[4]@, 6),
        has_boundary(iid.parts@[4]@, 8),
        has_boundary(iid.parts@[4]@, 10),
{
    let p3 = iid.parts@[3]@;
    let p4 = iid.parts@[4]@;
    lemma_ascii_utf8_len(p3);
    lemma_ascii_utf8_len(p4);
    lemma_ascii_boundary(p3, 2);
    lemma_ascii_boundary(p4, 2);
    lemma_ascii_boundary(p4, 4);
    lemma_ascii_boundary(p4, 6);
    lemma_ascii_boundary(p4, 8);
    lemma_ascii_boundary(p4, 10);
}

proof fn lemma_utf8_len_prefix_mono(s: Seq<char>, i: int, j: int)
    requires
        0 <= i <= j <= s.len(),
    ensures
        utf8_len(s.take(i)) <= utf8_len(s.take(j)),
        i < j ==> utf8_len(s.take(i)) < utf8_len(s.take(j)),
    decreases j - i,
{
    if i < j {
        lemma_utf8_len_prefix_mono(s, i, j - 1);
        assert(s.take(j).drop_last() =~= s.take(j - 1));
    }
}

proof fn lemma_boundary_monotone(s: Seq<char>, a: nat, b: nat, ka: int, kb: int)
    requires
        a < b,
        is_boundary(s, a, ka),
        is_boundary(s, b, kb),
    ensures
        ka < kb,
{
    if kb <= ka {
        lemma_utf8_len_prefix_mono(s, kb, ka);
    }
}
} // verus!
