use vstd::prelude::*;

verus! {

/// One's-complement addition of a 16-bit word, carry folded back in.
pub open spec fn ones_add(a: nat, w: nat) -> nat {
    if a + w > 0xffff {
        (a + w - 0xffff) as nat
    } else {
        a + w
    }
}

/// Word `i` of `b`, big-endian; a last odd byte is padded with zero.
pub open spec fn word_at(b: Seq<u8>, i: int) -> nat {
    b[2 * i] as nat * 256 + if 2 * i + 1 < b.len() { b[2 * i + 1] as nat } else { 0 }
}

pub open spec fn num_words(len: nat) -> nat {
    (len + 1) / 2
}

/// One's-complement sum of the first `n` words.
pub open spec fn ones_sum(b: Seq<u8>, n: nat) -> nat
    decreases n,
{
    if n == 0 {
        0
    } else {
        ones_add(ones_sum(b, (n - 1) as nat), word_at(b, n - 1))
    }
}

/// The Internet checksum of `b`: the complement of its one's-complement sum.
pub open spec fn checksum_of(b: Seq<u8>) -> u16 {
    (0xffff - ones_sum(b, num_words(b.len()))) as u16
}

proof fn lemma_ones_sum_bound(b: Seq<u8>, n: nat)
    requires
        2 * n <= b.len() + 1,
    ensures
        ones_sum(b, n) <= 0xffff,
    decreases n,
{
    if n > 0 {
        lemma_ones_sum_bound(b, (n - 1) as nat);
    }
}

fn ones_sum_exec(b: &Vec<u8>) -> (r: u32)
    ensures
        r == ones_sum(b@, num_words(b@.len())),
        r <= 0xffff,
{
    let blen = b.len();
    let n = blen / 2 + blen % 2;
    assert(n == num_words(b@.len()));
    let mut acc: u32 = 0;
    let mut i: usize = 0;
    while i < n
        invariant
            blen == b@.len(),
            n == num_words(b@.len()),
            i <= n,
            acc == ones_sum(b@, i as nat),
            acc <= 0xffff,
        decreases n - i,
    {
        proof {
            let len = b@.len();
            assert(2 * i < len) by (nonlinear_arith)
                requires
                    i < n,
                    n == (len + 1) / 2,
            ;
        }
        let k: usize = i + i;
        let hi = b[k] as u32;
        let lo: u32 = if k + 1 < b.len() { b[k + 1] as u32 } else { 0 };
        let w = hi * 256 + lo;
        let t = acc + w;
        acc = if t > 0xffff { t - 0xffff } else { t };
        i = i + 1;
        proof {
            lemma_ones_sum_bound(b@, i as nat);
        }
    }
    acc
}

/// The checksum to put in a header whose checksum field is zero.
pub fn internet_checksum(b: &Vec<u8>) -> (r: u16)
    ensures
        r == checksum_of(b@),
{
    let s = ones_sum_exec(b);
    (0xffff - s) as u16
}

/// A received header checks out when its words, checksum included, sum to
/// all ones.
pub fn checksum_valid(b: &Vec<u8>) -> (r: bool)
    ensures
        r == (ones_sum(b@, num_words(b@.len())) == 0xffff),
{
    ones_sum_exec(b) == 0xffff
}

} // verus!
