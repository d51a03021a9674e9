use vstd::prelude::*;
use vstd::arithmetic::div_mod::lemma_fundamental_div_mod;
use vstd::arithmetic::div_mod::lemma_fundamental_div_mod_converse;
use vstd::arithmetic::div_mod::lemma_mod_bound;

verus! {

/// The number held by four bytes in big-endian order.
pub open spec fn u32_from_be(b: Seq<u8>) -> u32
    recommends
        b.len() == 4,
{
    ((b[0] as int) * 0x100_0000 + (b[1] as int) * 0x1_0000 + (b[2] as int) * 0x100
        + (b[3] as int)) as u32
}

/// The four big-endian bytes of a 32-bit number.
pub open spec fn u32_to_be(v: u32) -> Seq<u8> {
    seq![
        ((v as int) / 0x100_0000) as u8,
        (((v as int) / 0x1_0000) % 0x100) as u8,
        (((v as int) / 0x100) % 0x100) as u8,
        ((v as int) % 0x100) as u8,
    ]
}

/// Four big-endian bytes read back as a number give the number the bytes
/// were taken from.
pub proof fn lemma_u32_to_from_be(v: u32)
    ensures
        u32_to_be(v).len() == 4,
        u32_from_be(u32_to_be(v)) == v,
{
    let x = v as int;
    lemma_mod_bound(x, 0x100);
    lemma_fundamental_div_mod(x, 0x100);
    let x1 = x / 0x100;
    lemma_mod_bound(x1, 0x100);
    lemma_fundamental_div_mod(x1, 0x100);
    let x2 = x1 / 0x100;
    lemma_mod_bound(x2, 0x100);
    lemma_fundamental_div_mod(x2, 0x100);
    let x3 = x2 / 0x100;
    let b3 = x % 0x100;
    let b2 = x1 % 0x100;
    let b1 = x2 % 0x100;
    assert(x == x3 * 0x100_0000 + b1 * 0x1_0000 + b2 * 0x100 + b3);
    assert(0 <= x3 < 0x100);
    lemma_fundamental_div_mod_converse(x, 0x100_0000, x3, b1 * 0x1_0000 + b2 * 0x100 + b3);
    lemma_fundamental_div_mod_converse(x, 0x1_0000, x3 * 0x100 + b1, b2 * 0x100 + b3);
    lemma_fundamental_div_mod_converse(x3 * 0x100 + b1, 0x100, x3, b1);
    lemma_fundamental_div_mod_converse(x3 * 0x1_0000 + b1 * 0x100 + b2, 0x100, x3 * 0x100 + b1, b2);
}

/// A number built from four bytes writes back out as those same four bytes.
pub proof fn lemma_u32_from_to_be(b: Seq<u8>)
    requires
        b.len() == 4,
    ensures
        u32_to_be(u32_from_be(b)) == b,
{
    let b0 = b[0] as int;
    let b1 = b[1] as int;
    let b2 = b[2] as int;
    let b3 = b[3] as int;
    let x = b0 * 0x100_0000 + b1 * 0x1_0000 + b2 * 0x100 + b3;
    assert(u32_from_be(b) as int == x);
    lemma_fundamental_div_mod_converse(x, 0x100_0000, b0, b1 * 0x1_0000 + b2 * 0x100 + b3);
    lemma_fundamental_div_mod_converse(x, 0x1_0000, b0 * 0x100 + b1, b2 * 0x100 + b3);
    lemma_fundamental_div_mod_converse(b0 * 0x100 + b1, 0x100, b0, b1);
    lemma_fundamental_div_mod_converse(x, 0x100, b0 * 0x1_0000 + b1 * 0x100 + b2, b3);
    lemma_fundamental_div_mod_converse(b0 * 0x1_0000 + b1 * 0x100 + b2, 0x100, b0 * 0x100 + b1, b2);
    assert(u32_to_be(u32_from_be(b)) =~= b);
}

/// Reads the four-byte big-endian field of `i` that starts at `off`.
pub fn read_u32_be(i: &[u8], off: usize) -> (r: u32)
    requires
        off + 4 <= i@.len(),
    ensures
        r == u32_from_be(i@.subrange(off as int, off + 4)),
{
    let b0 = i[off];
    let b1 = i[off + 1];
    let b2 = i[off + 2];
    let b3 = i[off + 3];
    let r = (b0 as u32) * 0x100_0000 + (b1 as u32) * 0x1_0000 + (b2 as u32) * 0x100 + (b3 as u32);
    proof {
        let s = i@.subrange(off as int, off + 4);
        assert(s[0] == i@[off as int]);
        assert(s[1] == i@[off + 1]);
        assert(s[2] == i@[off + 2]);
        assert(s[3] == i@[off + 3]);
    }
    r
}

/// Appends the four big-endian bytes of `v` to `out`.
pub fn push_u32_be(out: &mut Vec<u8>, v: u32)
    ensures
        final(out)@ == old(out)@ + u32_to_be(v),
{
    proof {
        lemma_mod_bound(v as int, 0x100);
        lemma_mod_bound((v as int) / 0x100, 0x100);
        lemma_mod_bound((v as int) / 0x1_0000, 0x100);
        lemma_fundamental_div_mod(v as int, 0x100_0000);
        lemma_mod_bound(v as int, 0x100_0000);
        assert(0 <= (v as int) / 0x100_0000 < 0x100);
    }
    out.push((v / 0x100_0000) as u8);
    out.push(((v / 0x1_0000) % 0x100) as u8);
    out.push(((v / 0x100) % 0x100) as u8);
    out.push((v % 0x100) as u8);
    assert(out@ =~= old(out)@ + u32_to_be(v));
}

/// Appends every byte of `b` to `out`, in order.
pub fn push_bytes(out: &mut Vec<u8>, b: &[u8])
    ensures
        final(out)@ == old(out)@ + b@,
{
    let n = b.len();
    let mut j: usize = 0;
    while j < n
        invariant
            n == b@.len(),
            j <= n,
            out@ == old(out)@ + b@.subrange(0, j as int),
        decreases n - j,
    {
        out.push(b[j]);
        assert(out@ =~= old(out)@ + b@.subrange(0, j + 1));
        j += 1;
    }
    assert(out@ =~= old(out)@ + b@);
}

/// Whether two byte slices hold the same bytes.
pub fn bytes_eq(a: &[u8], b: &[u8]) -> (r: bool)
    ensures
        r == (a@ == b@),
{
    if a.len() != b.len() {
        return false;
    }
    let n = a.len();
    let mut j: usize = 0;
    while j < n
        invariant
            n == a@.len(),
            n == b@.len(),
            j <= n,
            forall|k: int| 0 <= k < j ==> a@[k] == b@[k],
        decreases n - j,
    {
        if a[j] != b[j] {
            return false;
        }
        j += 1;
    }
    assert(a@ =~= b@);
    true
}

} // verus!
