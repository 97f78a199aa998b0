//! Text: hexadecimal, decimal, UTF-8 and concatenation.

use vstd::prelude::*;
use vstd::string::StringExecFns;
use vstd::utf8::{decode_utf8, encode_utf8, encode_utf8_decode_utf8, valid_utf8};

verus! {

/// The lower case hexadecimal digit for a number below 16.
pub open spec fn hex_digit(n: int) -> char {
    if n < 10 {
        (48 + n) as char
    } else {
        (87 + n) as char
    }
}

/// The number that a hexadecimal digit of either case stands for.
pub open spec fn hex_digit_value(c: char) -> Option<int> {
    let u = c as int;
    if 48 <= u <= 57 {
        Some(u - 48)
    } else if 97 <= u <= 102 {
        Some(u - 87)
    } else if 65 <= u <= 70 {
        Some(u - 55)
    } else {
        None
    }
}

/// Two lower case digits per byte.
pub open spec fn hex_of(data: Seq<u8>) -> Seq<char> {
    Seq::new(
        data.len() * 2,
        |j: int| hex_digit(if j % 2 == 0 { data[j / 2] as int / 16 } else { data[j / 2] as int % 16 }),
    )
}

/// The bytes that a string of digit pairs stands for, if it is one.
pub open spec fn hex_decoded(s: Seq<char>) -> Option<Seq<u8>> {
    if s.len() % 2 == 0 && forall|i: int| 0 <= i < s.len() ==> hex_digit_value(#[trigger] s[i]) is Some {
        Some(
            Seq::new(
                s.len() / 2,
                |i: int|
                    (hex_digit_value(s[2 * i])->0 * 16 + hex_digit_value(s[2 * i + 1])->0) as u8,
            ),
        )
    } else {
        None
    }
}

/// Whether a string is made of digit pairs with lower case letters.
pub open spec fn is_lower_hex(s: Seq<char>) -> bool {
    &&& s.len() % 2 == 0
    &&& forall|i: int|
        0 <= i < s.len() ==> (48 <= (#[trigger] s[i]) as int <= 57 || 97 <= s[i] as int <= 102)
}

/// Decoding an encoded byte string gives it back.
pub proof fn hex_roundtrip(data: Seq<u8>)
    ensures
        is_lower_hex(hex_of(data)),
        hex_decoded(hex_of(data)) == Some(data),
{
    let s = hex_of(data);
    assert forall|i: int| 0 <= i < s.len() implies hex_digit_value(#[trigger] s[i]) is Some && (48
        <= s[i] as int <= 57 || 97 <= s[i] as int <= 102) by {
        assert(0 <= data[i / 2] as int / 16 < 16);
        assert(0 <= data[i / 2] as int % 16 < 16);
    }
    let d = hex_decoded(s)->0;
    assert forall|i: int| 0 <= i < data.len() implies #[trigger] d[i] == data[i] by {
        assert((2 * i) / 2 == i && (2 * i + 1) / 2 == i);
        assert(s[2 * i] == hex_digit(data[i] as int / 16));
        assert(s[2 * i + 1] == hex_digit(data[i] as int % 16));
    }
    assert(d =~= data);
}

/// Encoding a decoded lower case string gives it back.
pub proof fn hex_roundtrip_text(s: Seq<char>)
    requires
        is_lower_hex(s),
    ensures
        hex_decoded(s) is Some,
        hex_decoded(s)->0.len() == s.len() / 2,
        hex_of(hex_decoded(s)->0) == s,
{
    let d = hex_decoded(s)->0;
    let t = hex_of(d);
    assert forall|j: int| 0 <= j < s.len() implies #[trigger] t[j] == s[j] by {
        let i = j / 2;
        assert(hex_digit_value(s[2 * i]) is Some && hex_digit_value(s[2 * i + 1]) is Some);
        let hi = hex_digit_value(s[2 * i])->0;
        let lo = hex_digit_value(s[2 * i + 1])->0;
        assert(0 <= hi < 16 && 0 <= lo < 16);
        assert(d[i] as int == hi * 16 + lo);
        assert(d[i] as int / 16 == hi && d[i] as int % 16 == lo);
        assert(j == 2 * i || j == 2 * i + 1);
    }
    assert(t =~= s);
}

/// `hex::encode`: two lower case digits per byte, high half first.
#[verifier::external_body]
pub(crate) fn hex_encode(data: &[u8]) -> (r: String)
    ensures
        r@ == hex_of(data@),
{
    hex::encode(data)
}

/// `hex::decode`: the bytes, where the text has even length and holds digits
/// of either case only; an error otherwise.
#[verifier::external_body]
pub(crate) fn hex_decode(s: &str) -> (r: Option<Vec<u8>>)
    ensures
        r is Some <==> hex_decoded(s@) is Some,
        r matches Some(v) ==> hex_decoded(s@) == Some(v@),
{
    hex::decode(s).ok()
}

/// `String::from_utf8`: the text that the bytes encode, where they are valid
/// UTF-8.
#[verifier::external_body]
fn utf8_string(v: Vec<u8>) -> (r: Option<String>)
    ensures
        r is Some <==> valid_utf8(v@),
        r matches Some(s) ==> encode_utf8(s@) == v@,
{
    String::from_utf8(v).ok()
}

/// The text that a byte string encodes, if any.
pub fn text_from_bytes(v: Vec<u8>) -> (r: Option<String>)
    ensures
        r is Some <==> valid_utf8(v@),
        r matches Some(s) ==> s@ == decode_utf8(v@),
{
    let r = utf8_string(v);
    proof {
        if r is Some {
            encode_utf8_decode_utf8((r->0)@);
        }
    }
    r
}

/// The text that a byte string stands for when what is not UTF-8 is replaced.
pub uninterp spec fn lossy_text(data: Seq<u8>) -> Seq<char>;

/// `String::from_utf8_lossy`: the text that the bytes encode where they are valid
/// UTF-8. What is put in place of other bytes is left to the name.
#[verifier::external_body]
pub(crate) fn text_lossily(data: &[u8]) -> (r: String)
    ensures
        r@ == lossy_text(data@),
        valid_utf8(data@) ==> r@ == decode_utf8(data@),
{
    String::from_utf8_lossy(data).into_owned()
}

/// The decimal digit of a number below 10.
pub open spec fn decimal_digit(n: nat) -> char {
    (48 + n) as char
}

/// A number in decimal, without leading zeros.
pub open spec fn decimal_of(n: nat) -> Seq<char>
    decreases n,
{
    if n < 10 {
        seq![decimal_digit(n)]
    } else {
        decimal_of(n / 10).push(decimal_digit(n % 10))
    }
}

fn digit_text(n: u64) -> (r: &'static str)
    requires
        n < 10,
    ensures
        r@ == seq![decimal_digit(n as nat)],
{
    proof {
        reveal_strlit("0");
        reveal_strlit("1");
        reveal_strlit("2");
        reveal_strlit("3");
        reveal_strlit("4");
        reveal_strlit("5");
        reveal_strlit("6");
        reveal_strlit("7");
        reveal_strlit("8");
        reveal_strlit("9");
    }
    let r: &'static str = match n {
        0 => "0",
        1 => "1",
        2 => "2",
        3 => "3",
        4 => "4",
        5 => "5",
        6 => "6",
        7 => "7",
        8 => "8",
        _ => "9",
    };
    assert(r@ =~= seq![decimal_digit(n as nat)]);
    r
}

/// Appends a number in decimal.
pub fn push_decimal(out: &mut String, n: u64)
    ensures
        final(out)@ == old(out)@ + decimal_of(n as nat),
    decreases n,
{
    if n >= 10 {
        push_decimal(out, n / 10);
    }
    out.append(digit_text(n % 10));
    assert(out@ =~= old(out)@ + decimal_of(n as nat));
}

/// A signed number in decimal.
pub open spec fn signed_decimal_of(n: int) -> Seq<char> {
    if n < 0 {
        "-"@ + decimal_of((-n) as nat)
    } else {
        decimal_of(n as nat)
    }
}

/// Appends a signed number in decimal.
pub fn push_signed_decimal(out: &mut String, n: i64)
    ensures
        final(out)@ == old(out)@ + signed_decimal_of(n as int),
{
    if n < 0 {
        out.append("-");
        push_decimal(out, (-(n + 1)) as u64 + 1);
        assert(out@ =~= old(out)@ + signed_decimal_of(n as int));
    } else {
        push_decimal(out, n as u64);
    }
}

/// A signed number in decimal, as a text of its own.
pub fn signed_text(n: i64) -> (r: String)
    ensures
        r@ == signed_decimal_of(n as int),
{
    let mut out = String::new();
    push_signed_decimal(&mut out, n);
    assert(out@ =~= signed_decimal_of(n as int));
    out
}

/// The number that a string of decimal digits stands for, if it is one.
pub open spec fn digits_value(s: Seq<char>) -> Option<nat>
    decreases s.len(),
{
    if s.len() == 0 {
        None
    } else if !(48 <= s.last() as int <= 57) {
        None
    } else if s.len() == 1 {
        Some((s.last() as int - 48) as nat)
    } else {
        match digits_value(s.drop_last()) {
            Some(n) => Some((n * 10 + (s.last() as int - 48)) as nat),
            None => None,
        }
    }
}

/// The 64 bit number that a text stands for: an optional sign and digits.
pub open spec fn parsed_i64(s: Seq<char>) -> Option<int> {
    let signed = s.len() > 0 && (s[0] == '-' || s[0] == '+');
    let digits = if signed {
        s.skip(1)
    } else {
        s
    };
    match digits_value(digits) {
        None => None,
        Some(n) => {
            let v = if signed && s[0] == '-' {
                -(n as int)
            } else {
                n as int
            };
            if i64::MIN <= v <= i64::MAX {
                Some(v)
            } else {
                None
            }
        },
    }
}

/// `str::parse::<i64>`: an optional sign and at least one digit, within range;
/// an error otherwise.
#[verifier::external_body]
pub(crate) fn parse_i64(s: &str) -> (r: Option<i64>)
    ensures
        r is Some <==> parsed_i64(s@) is Some,
        r matches Some(v) ==> parsed_i64(s@) == Some(v as int),
{
    s.parse::<i64>().ok()
}

proof fn lemma_digits_of_decimal(n: nat)
    ensures
        digits_value(decimal_of(n)) == Some(n),
        decimal_of(n).len() > 0,
        forall|i: int| 0 <= i < decimal_of(n).len() ==> 48 <= (#[trigger] decimal_of(n)[i]) as int <= 57,
    decreases n,
{
    if n >= 10 {
        lemma_digits_of_decimal(n / 10);
        assert(decimal_of(n).drop_last() =~= decimal_of(n / 10));
        assert(decimal_of(n).len() > 1);
        assert forall|i: int| 0 <= i < decimal_of(n).len() implies 48 <= (#[trigger] decimal_of(n)[i]) as int
            <= 57 by {
            if i < decimal_of(n).len() - 1 {
                assert(decimal_of(n)[i] == decimal_of(n / 10)[i]);
            }
        }
    }
}

/// Reading a printed number gives it back.
pub proof fn signed_decimal_roundtrip(n: i64)
    ensures
        parsed_i64(signed_decimal_of(n as int)) == Some(n as int),
{
    let s = signed_decimal_of(n as int);
    let a: nat = if n < 0 {
        (-(n as int)) as nat
    } else {
        n as nat
    };
    lemma_digits_of_decimal(a);
    reveal_strlit("-");
    if n < 0 {
        assert(s.skip(1) =~= decimal_of(a));
        assert(s[0] == '-');
    } else {
        assert(48 <= s[0] as int <= 57);
    }
}

/// Whether two byte strings are equal.
pub fn same_bytes(a: &[u8], b: &[u8]) -> (r: bool)
    ensures
        r <==> a@ == b@,
{
    if a.len() != b.len() {
        return false;
    }
    let mut i: usize = 0;
    while i < a.len()
        invariant
            i <= a@.len(),
            a@.len() == b@.len(),
            forall|k: int| 0 <= k < i ==> a@[k] == b@[k],
        decreases a@.len() - i,
    {
        if a[i] != b[i] {
            return false;
        }
        i = i + 1;
    }
    assert(a@ =~= b@);
    true
}

/// Whether two texts are equal.
pub fn same_text(a: &str, b: &str) -> (r: bool)
    ensures
        r <==> a@ == b@,
{
    proof {
        encode_utf8_decode_utf8(a@);
        encode_utf8_decode_utf8(b@);
    }
    same_bytes(a.as_bytes(), b.as_bytes())
}

/// `head` followed by `tail`.
pub fn text2(head: &str, tail: &str) -> (r: String)
    ensures
        r@ == head@ + tail@,
{
    let mut out = String::from_str(head);
    out.append(tail);
    out
}

/// Different numbers are printed differently: reading the digits gives the number back.
pub proof fn decimals_differ(a: nat, b: nat)
    ensures
        digits_value(decimal_of(a)) == Some(a),
        decimal_of(a) == decimal_of(b) <==> a == b,
{
    lemma_digits_of_decimal(a);
    lemma_digits_of_decimal(b);
}

/// Digits are read as tens: a digit more multiplies by ten and adds the digit. The signs
/// are a minus for what is below 0 and nothing for the rest.
pub proof fn decimals_are_tens(n: nat, d: nat)
    requires
        d < 10,
    ensures
        n > 0 ==> decimal_of(10 * n + d) == decimal_of(n).push((48 + d) as char),
        decimal_of(d) == seq![(48 + d) as char],
        n > 0 ==> signed_decimal_of(-(n as int)) == seq!['-'] + decimal_of(n),
        signed_decimal_of(n as int) == decimal_of(n),
{
    reveal_strlit("-");
    assert("-"@ =~= seq!['-']);
    if n > 0 {
        assert((10 * n + d) / 10 == n);
        assert((10 * n + d) % 10 == d);
    }
}

/// Two digits stand for a byte, the first for sixteens: 0 to 9 and a to f.
pub proof fn hex_is_by_sixteens(data: Seq<u8>, i: int)
    requires
        0 <= i < data.len(),
    ensures
        hex_of(data).len() == 2 * data.len(),
        ({
            let hi = hex_of(data)[2 * i] as int;
            let lo = hex_of(data)[2 * i + 1] as int;
            let h: int = if hi <= 57 {
                hi - 48
            } else {
                hi - 97 + 10
            };
            let l: int = if lo <= 57 {
                lo - 48
            } else {
                lo - 97 + 10
            };
            &&& 0 <= h < 16 && 0 <= l < 16
            &&& 16 * h + l == data[i]
        }),
{
    assert((2 * i) / 2 == i && (2 * i + 1) / 2 == i);
    assert((2 * i) % 2 == 0 && (2 * i + 1) % 2 == 1);
}

} // verus!
