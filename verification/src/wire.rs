//! Fixed width integers on the wire.
//!
//! `be_value` and `be_bytes` give the meaning of a byte string read most
//! significant byte first; the frame formats of the other modules are stated
//! with them.

use vstd::prelude::*;

verus! {

/// The number that a byte string stands for, most significant byte first.
pub open spec fn be_value(s: Seq<u8>) -> nat
    decreases s.len(),
{
    if s.len() == 0 {
        0
    } else {
        be_value(s.drop_last()) * 256 + s.last() as nat
    }
}

/// The `n` low order bytes of `x`, most significant byte first.
pub open spec fn be_bytes(x: nat, n: nat) -> Seq<u8>
    decreases n,
{
    if n == 0 {
        Seq::empty()
    } else {
        be_bytes(x / 256, (n - 1) as nat).push((x % 256) as u8)
    }
}

/// How many numbers `n` bytes can stand for.
pub open spec fn pow256(n: nat) -> nat
    decreases n,
{
    if n == 0 {
        1
    } else {
        256 * pow256((n - 1) as nat)
    }
}

/// The two's complement reading of a 64 bit word.
pub open spec fn signed64(x: u64) -> int {
    if x <= i64::MAX {
        x as int
    } else {
        x - 0x1_0000_0000_0000_0000
    }
}

/// The 64 bit word that stands for `x` in two's complement.
pub open spec fn unsigned64(x: i64) -> nat {
    if x >= 0 {
        x as nat
    } else {
        (x + 0x1_0000_0000_0000_0000) as nat
    }
}

pub(crate) proof fn lemma_be_bytes_len(x: nat, n: nat)
    ensures
        be_bytes(x, n).len() == n,
    decreases n,
{
    if n > 0 {
        lemma_be_bytes_len(x / 256, (n - 1) as nat);
    }
}

/// Reading what was written gives the number back, where it fits.
pub(crate) proof fn lemma_be_value_of_bytes(x: nat, n: nat)
    requires
        x < pow256(n),
    ensures
        be_bytes(x, n).len() == n,
        be_value(be_bytes(x, n)) == x,
    decreases n,
{
    if n > 0 {
        assert(x / 256 < pow256((n - 1) as nat));
        lemma_be_value_of_bytes(x / 256, (n - 1) as nat);
        let s = be_bytes(x, n);
        assert(s.drop_last() =~= be_bytes(x / 256, (n - 1) as nat));
    }
}

/// Writing what was read gives the bytes back.
pub(crate) proof fn lemma_be_bytes_of_value(s: Seq<u8>)
    ensures
        be_value(s) < pow256(s.len()),
        be_bytes(be_value(s), s.len()) == s,
    decreases s.len(),
{
    if s.len() > 0 {
        let d = s.drop_last();
        lemma_be_bytes_of_value(d);
        let x = be_value(s);
        assert(x / 256 == be_value(d) && x % 256 == s.last());
        assert(be_bytes(x, s.len()) =~= s);
    }
}

pub(crate) proof fn lemma_pow256()
    ensures
        pow256(1) == 0x100,
        pow256(2) == 0x1_0000,
        pow256(4) == 0x1_0000_0000,
        pow256(8) == 0x1_0000_0000_0000_0000,
{
    reveal_with_fuel(pow256, 9);
}

/// The `n` bytes that start at `at`, as a number.
pub fn read_be(data: &[u8], at: usize, n: usize) -> (r: u64)
    requires
        n <= 8,
        at + n <= data@.len(),
    ensures
        r == be_value(data@.subrange(at as int, at + n)),
        r < pow256(n as nat),
{
    let mut acc: u64 = 0;
    let mut i: usize = 0;
    while i < n
        invariant
            i <= n <= 8,
            at + n <= data@.len(),
            acc == be_value(data@.subrange(at as int, at + i)),
        decreases n - i,
    {
        proof {
            let s = data@.subrange(at as int, at + i);
            let t = data@.subrange(at as int, at + i + 1);
            assert(t.drop_last() =~= s);
            lemma_be_bytes_of_value(s);
            reveal_with_fuel(pow256, 9);
            assert(at + i < data.len());
        }
        acc = acc * 256 + data[at + i] as u64;
        i = i + 1;
    }
    proof {
        lemma_be_bytes_of_value(data@.subrange(at as int, at + n));
    }
    acc
}

/// Two bytes as a number.
pub fn read_u16(data: &[u8], at: usize) -> (r: u16)
    requires
        at + 2 <= data@.len(),
    ensures
        r == be_value(data@.subrange(at as int, at + 2)),
{
    proof {
        lemma_pow256();
    }
    read_be(data, at, 2) as u16
}

/// Four bytes as a number.
pub fn read_u32(data: &[u8], at: usize) -> (r: u32)
    requires
        at + 4 <= data@.len(),
    ensures
        r == be_value(data@.subrange(at as int, at + 4)),
{
    proof {
        lemma_pow256();
    }
    read_be(data, at, 4) as u32
}

/// Eight bytes as a number.
pub fn read_u64(data: &[u8], at: usize) -> (r: u64)
    requires
        at + 8 <= data@.len(),
    ensures
        r == be_value(data@.subrange(at as int, at + 8)),
{
    read_be(data, at, 8)
}

/// Appends the `n` low order bytes of `x`.
pub fn push_be(out: &mut Vec<u8>, x: u64, n: usize)
    ensures
        final(out)@ == old(out)@ + be_bytes(x as nat, n as nat),
    decreases n,
{
    if n > 0 {
        push_be(out, x / 256, n - 1);
        out.push((x % 256) as u8);
        assert(out@ =~= old(out)@ + be_bytes(x as nat, n as nat));
    }
}

/// Appends a copy of `data`.
pub fn push_bytes(out: &mut Vec<u8>, data: &[u8])
    ensures
        final(out)@ == old(out)@ + data@,
{
    out.extend_from_slice(data);
    assert(out@ =~= old(out)@ + data@);
}

/// A copy of the bytes from `from` up to `to`.
pub fn copy_range(data: &[u8], from: usize, to: usize) -> (r: Vec<u8>)
    requires
        from <= to <= data@.len(),
    ensures
        r@ == data@.subrange(from as int, to as int),
{
    vstd::slice::slice_to_vec(vstd::slice::slice_subrange(data, from, to))
}

/// `s` with the bytes from `at` on replaced by those of `d`.
pub open spec fn overwritten(s: Seq<u8>, at: int, d: Seq<u8>) -> Seq<u8> {
    s.subrange(0, at) + d + s.subrange(at + d.len(), s.len() as int)
}

/// Writes `data` into `buf`, starting at `at`.
pub fn write_at(buf: &mut [u8], at: usize, data: &[u8])
    requires
        at + data@.len() <= old(buf)@.len(),
    ensures
        final(buf)@ == overwritten(old(buf)@, at as int, data@),
{
    let n: usize = data.len();
    let mut i: usize = 0;
    assert(at + n <= buf.len());
    while i < n
        invariant
            i <= n == data@.len(),
            at + n <= buf@.len() == old(buf)@.len(),
            at + n <= usize::MAX,
            forall|j: int|
                0 <= j < buf@.len() ==> #[trigger] buf@[j] == (if at <= j < at + i {
                    data@[j - at]
                } else {
                    old(buf)@[j]
                }),
        decreases n - i,
    {
        buf[at + i] = data[i];
        i = i + 1;
    }
    assert(buf@ =~= overwritten(old(buf)@, at as int, data@));
}

/// Writes the `n` low order bytes of `x` into `buf`, starting at `at`.
pub fn write_be(buf: &mut [u8], at: usize, x: u64, n: usize)
    requires
        at + n <= old(buf)@.len(),
    ensures
        final(buf)@ == overwritten(old(buf)@, at as int, be_bytes(x as nat, n as nat)),
    decreases n,
{
    proof {
        lemma_be_bytes_len(x as nat, n as nat);
        lemma_be_bytes_len((x / 256) as nat, (n - 1) as nat);
    }
    if n > 0 {
        assert(at + n <= buf.len());
        write_be(buf, at, x / 256, n - 1);
        buf[at + (n - 1)] = (x % 256) as u8;
    }
    assert(buf@ =~= overwritten(old(buf)@, at as int, be_bytes(x as nat, n as nat)));
}

/// The two's complement reading of a 64 bit word.
pub fn to_signed64(x: u64) -> (r: i64)
    ensures
        r == signed64(x),
{
    assert(x <= 0x7fff_ffff_ffff_ffff ==> (x as i64) == x) by (bit_vector);
    assert(x > 0x7fff_ffff_ffff_ffff ==> (x as i64) == x - 0x1_0000_0000_0000_0000) by (bit_vector);
    x as i64
}

/// The 64 bit word that stands for `x` in two's complement.
pub fn to_unsigned64(x: i64) -> (r: u64)
    ensures
        r == unsigned64(x),
{
    assert(x >= 0 ==> (x as u64) == x) by (bit_vector);
    assert(x < 0 ==> (x as u64) == x + 0x1_0000_0000_0000_0000) by (bit_vector);
    x as u64
}

/// Two bytes stand for 256 times the first plus the second, and four for the same of
/// two pairs of them: the most significant byte comes first.
pub proof fn most_significant_first(a: u8, b: u8, c: u8, d: u8)
    ensures
        be_value(seq![a, b]) == 256 * a + b,
        be_value(seq![a, b, c, d]) == 0x100_0000 * a + 0x1_0000 * b + 256 * c + d,
{
    reveal_with_fuel(be_value, 5);
    let two = seq![a, b];
    assert(two.drop_last() =~= seq![a]);
    assert(seq![a].drop_last() =~= Seq::<u8>::empty());
    let four = seq![a, b, c, d];
    assert(four.drop_last() =~= seq![a, b, c]);
    assert(seq![a, b, c].drop_last() =~= two);
}

/// Appending a byte multiplies what a byte string stands for by 256 and adds the byte;
/// bytes before it that are 0 change nothing.
pub proof fn bytes_are_digits(s: Seq<u8>, b: u8)
    ensures
        be_value(Seq::empty()) == 0,
        be_value(s.push(b)) == 256 * be_value(s) + b,
        be_value(seq![0u8] + s) == be_value(s),
    decreases s.len(),
{
    assert(s.push(b).drop_last() =~= s);
    if s.len() == 0 {
        assert((seq![0u8] + s).drop_last() =~= Seq::<u8>::empty());
        reveal_with_fuel(be_value, 2);
    } else {
        bytes_are_digits(s.drop_last(), b);
        assert((seq![0u8] + s).drop_last() =~= seq![0u8] + s.drop_last());
    }
}

/// The two's complement reading of a word and the word of a number undo each other, and
/// the numbers from 0 on stand for themselves.
pub proof fn twos_complement(x: u64, y: i64)
    ensures
        i64::MIN <= signed64(x) <= i64::MAX,
        unsigned64(signed64(x) as i64) == x,
        signed64(unsigned64(y) as u64) == y,
        y >= 0 ==> unsigned64(y) == y,
        y < 0 ==> unsigned64(y) == y + 0x1_0000_0000_0000_0000,
{
}

/// Overwriting changes the bytes in its range, each to the one that is written there, and
/// no other; the length stays.
pub proof fn only_its_range_is_overwritten(s: Seq<u8>, at: int, d: Seq<u8>, i: int)
    requires
        0 <= at,
        at + d.len() <= s.len(),
        0 <= i < s.len(),
    ensures
        overwritten(s, at, d).len() == s.len(),
        at <= i < at + d.len() ==> overwritten(s, at, d)[i] == d[i - at],
        i < at || i >= at + d.len() ==> overwritten(s, at, d)[i] == s[i],
{
}

} // verus!
