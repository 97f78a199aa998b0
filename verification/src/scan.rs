//! Searching and splitting text.

use crate::text::{
    decimal_of,
    decimals_are_tens,
    decimals_differ,
    digits_value,
    parse_i64,
    parsed_i64,
    signed_decimal_of,
    signed_decimal_roundtrip,
};
use vstd::prelude::*;
use vstd::string::{StrSliceExecFns, StringExecFns};

verus! {

/// Whether a pattern stands at a position of a text.
pub open spec fn occurs_at(s: Seq<char>, p: Seq<char>, i: int) -> bool {
    0 <= i && i + p.len() <= s.len() && s.subrange(i, i + p.len()) == p
}

/// The first position of a pattern, from a position on.
pub open spec fn found_from(s: Seq<char>, p: Seq<char>, i: int) -> Option<int>
    decreases s.len() + 1 - i,
{
    if i < 0 || i + p.len() > s.len() {
        None
    } else if occurs_at(s, p, i) {
        Some(i)
    } else {
        found_from(s, p, i + 1)
    }
}

/// Whether a pattern stands anywhere in a text.
pub open spec fn holds_text(s: Seq<char>, p: Seq<char>) -> bool {
    exists|i: int| occurs_at(s, p, i)
}

/// Characters that count as white space.
pub open spec fn is_white(c: char) -> bool {
    let u = c as int;
    ||| 9 <= u <= 13
    ||| u == 0x20
    ||| u == 0x85
    ||| u == 0xA0
    ||| u == 0x1680
    ||| 0x2000 <= u <= 0x200A
    ||| u == 0x2028
    ||| u == 0x2029
    ||| u == 0x202F
    ||| u == 0x205F
    ||| u == 0x3000
}

/// A text without its leading white space.
pub open spec fn trimmed_start(s: Seq<char>) -> Seq<char>
    decreases s.len(),
{
    if s.len() > 0 && is_white(s[0]) {
        trimmed_start(s.skip(1))
    } else {
        s
    }
}

/// A text without its trailing white space.
pub open spec fn trimmed_end(s: Seq<char>) -> Seq<char>
    decreases s.len(),
{
    if s.len() > 0 && is_white(s.last()) {
        trimmed_end(s.drop_last())
    } else {
        s
    }
}

/// A text without white space at its ends.
pub open spec fn trimmed(s: Seq<char>) -> Seq<char> {
    trimmed_end(trimmed_start(s))
}

/// The field of a text with the given number, where fields are set apart by
/// commas.
pub open spec fn field(s: Seq<char>, index: nat) -> Option<Seq<char>>
    decreases index,
{
    let comma = found_from(s, seq![','], 0);
    if index == 0 {
        Some(
            match comma {
                Some(k) => s.subrange(0, k),
                None => s,
            },
        )
    } else {
        match comma {
            Some(k) => field(s.skip(k + 1), (index - 1) as nat),
            None => None,
        }
    }
}

proof fn lemma_found(s: Seq<char>, p: Seq<char>, i: int)
    requires
        0 <= i,
    ensures
        match found_from(s, p, i) {
            Some(k) => i <= k && occurs_at(s, p, k) && forall|j: int|
                i <= j < k ==> !(#[trigger] occurs_at(s, p, j)),
            None => forall|j: int| i <= j ==> !(#[trigger] occurs_at(s, p, j)),
        },
    decreases s.len() + 1 - i,
{
    if i + p.len() <= s.len() && !occurs_at(s, p, i) {
        lemma_found(s, p, i + 1);
        assert forall|j: int| i + 1 <= j && !occurs_at(s, p, j) implies i <= j by {}
    }
}

/// A pattern is held exactly where it is found.
pub proof fn holding_is_finding(s: Seq<char>, p: Seq<char>)
    ensures
        holds_text(s, p) <==> found_from(s, p, 0) is Some,
{
    lemma_found(s, p, 0);
    if found_from(s, p, 0) is Some {
        assert(occurs_at(s, p, found_from(s, p, 0)->0));
    }
}

/// The characters of a text.
pub fn chars_of(s: &str) -> (r: Vec<char>)
    ensures
        r@ == s@,
{
    let mut chars: Vec<char> = Vec::new();
    for c in it: s.chars()
        invariant
            it.seq() == s@,
            chars@ == s@.subrange(0, it.index() as int),
    {
        chars.push(c);
        assert(chars@ =~= s@.subrange(0, it.index() + 1));
    }
    assert(chars@ =~= s@);
    chars
}

fn stands_at(s: &Vec<char>, p: &Vec<char>, at: usize) -> (r: bool)
    requires
        at + p@.len() <= s@.len(),
    ensures
        r <==> occurs_at(s@, p@, at as int),
{
    let mut k: usize = 0;
    while k < p.len()
        invariant
            k <= p@.len(),
            at + p@.len() <= s@.len(),
            forall|j: int| 0 <= j < k ==> s@[at + j] == p@[j],
        decreases p@.len() - k,
    {
        assert(at + k < s.len());
        if s[at + k] != p[k] {
            assert(s@.subrange(at as int, at + p@.len())[k as int] == s@[at + k]);
            return false;
        }
        k = k + 1;
    }
    assert(s@.subrange(at as int, at + p@.len()) =~= p@);
    true
}

/// The first position of a pattern, from a position on.
pub fn find_from(s: &Vec<char>, p: &Vec<char>, from: usize) -> (r: Option<usize>)
    ensures
        match r {
            Some(k) => found_from(s@, p@, from as int) == Some(k as int),
            None => found_from(s@, p@, from as int) is None,
        },
{
    let mut i: usize = from;
    while i <= s.len() && p.len() <= s.len() - i
        invariant
            from <= i,
            i <= from || i <= s@.len(),
            found_from(s@, p@, from as int) == found_from(s@, p@, i as int),
        decreases s@.len() + 1 - i,
    {
        if stands_at(s, p, i) {
            return Some(i);
        }
        proof {
            if p@.len() == 0 {
                assert(s@.subrange(i as int, i + p@.len()) =~= p@);
            }
            assert(i < s.len());
        }
        i = i + 1;
    }
    None
}

/// Whether a pattern stands anywhere in a text.
pub fn contains_text(s: &str, p: &str) -> (r: bool)
    ensures
        r <==> holds_text(s@, p@),
{
    proof {
        holding_is_finding(s@, p@);
    }
    find_from(&chars_of(s), &chars_of(p), 0).is_some()
}

fn white(c: char) -> (r: bool)
    ensures
        r <==> is_white(c),
{
    let u: u32 = c as u32;
    (9 <= u && u <= 13) || u == 0x20 || u == 0x85 || u == 0xA0 || u == 0x1680 || (0x2000 <= u && u
        <= 0x200A) || u == 0x2028 || u == 0x2029 || u == 0x202F || u == 0x205F || u == 0x3000
}

/// The bounds of a part of a text without white space at its ends.
fn trim_bounds(s: &Vec<char>, from: usize, to: usize) -> (r: (usize, usize))
    requires
        from <= to <= s@.len(),
    ensures
        from <= r.0 <= r.1 <= to,
        s@.subrange(r.0 as int, r.1 as int) == trimmed(s@.subrange(from as int, to as int)),
{
    let ghost all = s@.subrange(from as int, to as int);
    let mut a: usize = from;
    assert(s@.subrange(a as int, to as int) =~= all);
    while a < to && white(s[a])
        invariant
            from <= a <= to <= s@.len(),
            trimmed_start(all) == trimmed_start(s@.subrange(a as int, to as int)),
        decreases to - a,
    {
        assert(s@.subrange(a as int, to as int).skip(1) =~= s@.subrange(a + 1, to as int));
        a = a + 1;
    }
    let ghost front = s@.subrange(a as int, to as int);
    assert(trimmed_start(all) == front);
    let mut b: usize = to;
    while a < b && white(s[b - 1])
        invariant
            a <= b <= to <= s@.len(),
            trimmed_end(front) == trimmed_end(s@.subrange(a as int, b as int)),
        decreases b,
    {
        assert(s@.subrange(a as int, b as int).drop_last() =~= s@.subrange(a as int, b - 1));
        b = b - 1;
    }
    (a, b)
}

/// A text without white space at its ends.
pub fn trim_text(s: &str) -> (r: String)
    ensures
        r@ == trimmed(s@),
{
    let chars = chars_of(s);
    assert(chars@.subrange(0, chars@.len() as int) =~= s@);
    let (a, b) = trim_bounds(&chars, 0, chars.len());
    String::from_str(s.substring_char(a, b))
}

/// The bounds of the field with the given number, from a position on.
fn field_bounds(s: &Vec<char>, from: usize, index: usize) -> (r: Option<(usize, usize)>)
    requires
        from <= s@.len(),
    ensures
        match r {
            Some((a, b)) => from <= a <= b <= s@.len() && field(
                s@.skip(from as int),
                index as nat,
            ) == Some(s@.subrange(a as int, b as int)),
            None => field(s@.skip(from as int), index as nat) is None,
        },
{
    let mut start: usize = from;
    let mut left: usize = index;
    let mut comma: Vec<char> = Vec::new();
    comma.push(',');
    assert(comma@ =~= seq![',']);
    loop
        invariant
            from <= start <= s@.len(),
            comma@ == seq![','],
            field(s@.skip(from as int), index as nat) == field(s@.skip(start as int), left as nat),
        decreases left,
    {
        let at = find_from(s, &comma, start);
        proof {
            lemma_found_shift(s@, seq![','], start as int);
            lemma_found(s@, seq![','], start as int);
        }
        match at {
            Some(k) => {
                if left == 0 {
                    assert(s@.skip(start as int).subrange(0, k - start) =~= s@.subrange(
                        start as int,
                        k as int,
                    ));
                    return Some((start, k));
                }
                assert(s@.skip(start as int).skip(k - start + 1) =~= s@.skip(k + 1));
                assert(k < s.len());
                start = k + 1;
                left = left - 1;
            },
            None => {
                if left == 0 {
                    assert(s@.skip(start as int) =~= s@.subrange(start as int, s@.len() as int));
                    return Some((start, s.len()));
                }
                return None;
            },
        }
    }
}

/// Searching from a position on is searching the rest.
proof fn lemma_found_shift(s: Seq<char>, p: Seq<char>, from: int)
    requires
        0 <= from <= s.len(),
    ensures
        found_from(s.skip(from), p, 0) == (match found_from(s, p, from) {
            Some(k) => Some(k - from),
            None => None,
        }),
{
    lemma_found_shift_at(s, p, from, 0);
}

proof fn lemma_found_shift_at(s: Seq<char>, p: Seq<char>, from: int, i: int)
    requires
        0 <= from <= s.len(),
        0 <= i,
    ensures
        found_from(s.skip(from), p, i) == (match found_from(s, p, from + i) {
            Some(k) => Some(k - from),
            None => None,
        }),
    decreases s.len() + 1 - from - i,
{
    let t = s.skip(from);
    if i + p.len() <= t.len() {
        assert(t.subrange(i, i + p.len()) =~= s.subrange(from + i, from + i + p.len()));
        if !occurs_at(t, p, i) {
            lemma_found_shift_at(s, p, from, i + 1);
        }
    }
}

/// The field with the given number, if there is one.
pub fn field_text(s: &str, index: usize) -> (r: Option<String>)
    ensures
        match r {
            Some(f) => field(s@, index as nat) == Some(f@),
            None => field(s@, index as nat) is None,
        },
{
    let chars = chars_of(s);
    assert(chars@.skip(0) =~= s@);
    match field_bounds(&chars, 0, index) {
        Some((a, b)) => Some(String::from_str(s.substring_char(a, b))),
        None => None,
    }
}

/// The number in a labelled list: behind the label and the colon after it, in
/// the field with the given number.
#[verifier::opaque]
pub open spec fn labelled_int(s: Seq<char>, label: Seq<char>, index: nat) -> Option<int> {
    match found_from(s, label, 0) {
        None => None,
        Some(k) => match found_from(s, seq![':'], k) {
            None => None,
            Some(c) => match field(s.skip(c + 1), index) {
                None => None,
                Some(f) => match parsed_i64(trimmed(f)) {
                    None => None,
                    Some(v) => if i32::MIN <= v <= i32::MAX {
                        Some(v)
                    } else {
                        None
                    },
                },
            },
        },
    }
}

/// The number in a labelled list, if there is one that fits 32 bits.
pub fn labelled_number(s: &str, label: &str, index: usize) -> (r: Option<i32>)
    ensures
        match r {
            Some(v) => labelled_int(s@, label@, index as nat) == Some(v as int),
            None => labelled_int(s@, label@, index as nat) is None,
        },
{
    reveal(labelled_int);
    let chars = chars_of(s);
    let start: usize = match find_from(&chars, &chars_of(label), 0) {
        Some(k) => k,
        None => {
            return None;
        },
    };
    let mut colon: Vec<char> = Vec::new();
    colon.push(':');
    assert(colon@ =~= seq![':']);
    let at: usize = match find_from(&chars, &colon, start) {
        Some(c) => c,
        None => {
            return None;
        },
    };
    proof {
        lemma_found(s@, seq![':'], start as int);
        assert(at < chars.len());
    }
    let (a, b) = match field_bounds(&chars, at + 1, index) {
        Some(f) => f,
        None => {
            return None;
        },
    };
    let (c, d) = trim_bounds(&chars, a, b);
    match parse_i64(s.substring_char(c, d)) {
        Some(v) => if v >= i32::MIN as i64 && v <= i32::MAX as i64 {
            Some(v as i32)
        } else {
            None
        },
        None => None,
    }
}

/// The 8 bit number that a text stands for: an optional plus sign and digits.
pub open spec fn parsed_u8(s: Seq<char>) -> Option<int> {
    if s.len() > 0 && s[0] == '-' {
        None
    } else {
        match parsed_i64(s) {
            Some(v) => if 0 <= v <= 255 {
                Some(v)
            } else {
                None
            },
            None => None,
        }
    }
}

/// The 8 bit number that a text stands for, if any.
pub fn parse_u8(s: &str) -> (r: Option<u8>)
    ensures
        match r {
            Some(v) => parsed_u8(s@) == Some(v as int),
            None => parsed_u8(s@) is None,
        },
{
    if s.unicode_len() > 0 && s.get_char(0) == '-' {
        return None;
    }
    match parse_i64(s) {
        Some(v) => if v >= 0 && v <= 255 {
            Some(v as u8)
        } else {
            None
        },
        None => None,
    }
}

/// What is found is the first place from the given one on where the pattern stands, and
/// nothing is found only where it stands nowhere from there on.
pub proof fn the_first_is_found(s: Seq<char>, p: Seq<char>, i: int)
    requires
        0 <= i,
    ensures
        match found_from(s, p, i) {
            Some(k) => {
                &&& i <= k <= s.len() - p.len()
                &&& s.subrange(k, k + p.len()) == p
                &&& forall|j: int|
                    i <= j < k && j + p.len() <= s.len() ==> #[trigger] s.subrange(j, j + p.len())
                        != p
            },
            None => forall|j: int|
                i <= j && j + p.len() <= s.len() ==> #[trigger] s.subrange(j, j + p.len()) != p,
        },
{
    lemma_found(s, p, i);
    match found_from(s, p, i) {
        Some(k) => {
            assert forall|j: int| i <= j < k && j + p.len() <= s.len() implies #[trigger] s.subrange(
                j,
                j + p.len(),
            ) != p by {
                assert(!occurs_at(s, p, j));
            }
        },
        None => {
            assert forall|j: int| i <= j && j + p.len() <= s.len() implies #[trigger] s.subrange(
                j,
                j + p.len(),
            ) != p by {
                assert(!occurs_at(s, p, j));
            }
        },
    }
}

/// Trimming takes white space off both ends, all of it and nothing else: a text that
/// neither starts nor ends with white space is what is left of it between white space.
pub proof fn white_space_is_trimmed(a: Seq<char>, s: Seq<char>, b: Seq<char>)
    requires
        forall|i: int| 0 <= i < a.len() ==> is_white(#[trigger] a[i]),
        forall|i: int| 0 <= i < b.len() ==> is_white(#[trigger] b[i]),
        s.len() > 0,
        !is_white(s[0]),
        !is_white(s.last()),
    ensures
        trimmed(a + s + b) == s,
{
    lemma_start_is_trimmed(a, s + b);
    assert(a + (s + b) =~= a + s + b);
    lemma_end_is_trimmed(s, b);
}

proof fn lemma_start_is_trimmed(a: Seq<char>, s: Seq<char>)
    requires
        forall|i: int| 0 <= i < a.len() ==> is_white(#[trigger] a[i]),
        s.len() > 0,
        !is_white(s[0]),
    ensures
        trimmed_start(a + s) == s,
    decreases a.len(),
{
    if a.len() > 0 {
        let r = a.skip(1);
        assert forall|i: int| 0 <= i < r.len() implies is_white(#[trigger] r[i]) by {
            assert(r[i] == a[i + 1]);
        }
        lemma_start_is_trimmed(r, s);
        assert((a + s)[0] == a[0]);
        assert((a + s).skip(1) =~= r + s);
    } else {
        assert(a + s =~= s);
    }
}

proof fn lemma_end_is_trimmed(s: Seq<char>, b: Seq<char>)
    requires
        forall|i: int| 0 <= i < b.len() ==> is_white(#[trigger] b[i]),
        s.len() > 0,
        !is_white(s.last()),
    ensures
        trimmed_end(s + b) == s,
    decreases b.len(),
{
    if b.len() > 0 {
        let r = b.drop_last();
        lemma_end_is_trimmed(s, r);
        assert((s + b).last() == b.last());
        assert((s + b).drop_last() =~= s + r);
    } else {
        assert(s + b =~= s);
    }
}

/// The first field is what stands before the first comma, or all where there is none, and
/// the others are the fields of what stands behind it.
pub proof fn fields_are_between_commas(a: Seq<char>, s: Seq<char>, index: nat)
    requires
        forall|i: int| 0 <= i < a.len() ==> #[trigger] a[i] != ',',
    ensures
        field(a, 0) == Some(a),
        field(a, index + 1) is None,
        field(a + seq![','] + s, 0) == Some(a),
        field(a + seq![','] + s, index + 1) == field(s, index),
{
    let c = seq![','];
    let t = a + c + s;
    lemma_found(a, c, 0);
    if let Some(k) = found_from(a, c, 0) {
        assert(a.subrange(k, k + 1)[0] == a[k]);
        assert(a[k] == c[0]);
    }
    lemma_found(t, c, 0);
    assert(t.subrange(a.len() as int, a.len() + 1int) =~= c);
    assert(occurs_at(t, c, a.len() as int));
    let k = found_from(t, c, 0)->0;
    assert(t.subrange(k, k + 1)[0] == t[k]);
    if k < a.len() {
        assert(t[k] == a[k]);
    }
    assert(k == a.len());
    assert(t.subrange(0, k) =~= a);
    assert(t.skip(k + 1) =~= s);
}

proof fn lemma_colon(label: Seq<char>, s: Seq<char>)
    requires
        forall|i: int| 0 <= i < label.len() ==> #[trigger] label[i] != ':',
    ensures
        found_from(label + seq![':'] + s, label, 0) == Some(0int),
        found_from(label + seq![':'] + s, seq![':'], 0) == Some(label.len() as int),
{
    let c = seq![':'];
    let t = label + c + s;
    let n = label.len() as int;
    assert(t.subrange(0, n) =~= label);
    assert(occurs_at(t, label, 0));
    lemma_found(t, c, 0);
    assert(t.subrange(n, n + 1) =~= c);
    assert(occurs_at(t, c, n));
    let k = found_from(t, c, 0)->0;
    assert(t.subrange(k, k + 1)[0] == t[k]);
    if k < n {
        assert(t[k] == label[k]);
    }
}

/// The number behind a label and a colon is that of the field with its number, without
/// white space around it, where it fits 32 bits.
#[verifier::spinoff_prover]
pub proof fn labels_lead_to_their_numbers(label: Seq<char>, s: Seq<char>, f: Seq<char>, index: nat)
    requires
        forall|i: int| 0 <= i < label.len() ==> #[trigger] label[i] != ':',
        field(s, index) == Some(f),
    ensures
        labelled_int(label + seq![':'] + s, label, index) == match parsed_i64(trimmed(f)) {
            Some(v) => if -0x8000_0000 <= v <= 0x7FFF_FFFF {
                Some(v)
            } else {
                None
            },
            None => None,
        },
{
    let c = seq![':'];
    let t = label + c + s;
    let n = label.len() as int;
    lemma_colon(label, s);
    assert(t.skip(n + 1) =~= s);
    assert(labelled_int(t, label, index) == match parsed_i64(trimmed(f)) {
        Some(v) => if i32::MIN <= v <= i32::MAX {
            Some(v)
        } else {
            None
        },
        None => None,
    }) by {
        reveal(labelled_int);
    }
}

proof fn lemma_first_digit(s: Seq<char>)
    requires
        digits_value(s) is Some,
    ensures
        48 <= s[0] as int <= 57,
    decreases s.len(),
{
    if s.len() > 1 {
        lemma_first_digit(s.drop_last());
    }
}

/// A number from 0 to 255 is read from its digits, and no other is.
pub proof fn bytes_are_read_from_digits(n: i64)
    ensures
        0 <= n <= 255 ==> parsed_u8(signed_decimal_of(n as int)) == Some(n as int),
        n < 0 || n > 255 ==> parsed_u8(signed_decimal_of(n as int)) is None,
{
    signed_decimal_roundtrip(n);
    if n >= 0 {
        decimals_differ(n as nat, n as nat);
        lemma_first_digit(decimal_of(n as nat));
    } else {
        decimals_are_tens((-n) as nat, 0);
    }
}

} // verus!
