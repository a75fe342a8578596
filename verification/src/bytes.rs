//! Byte-sequence helpers shared by the canonical encodings: concatenation and
//! the fixed-width big-endian form of a 64-bit integer.

use vstd::prelude::*;

verus! {

/// The eight big-endian bytes of a 64-bit integer, most significant first.
pub open spec fn u64_be(x: u64) -> Seq<u8> {
    seq![
        ((x as int / 0x100000000000000) % 256) as u8,
        ((x as int / 0x1000000000000) % 256) as u8,
        ((x as int / 0x10000000000) % 256) as u8,
        ((x as int / 0x100000000) % 256) as u8,
        ((x as int / 0x1000000) % 256) as u8,
        ((x as int / 0x10000) % 256) as u8,
        ((x as int / 0x100) % 256) as u8,
        (x as int % 256) as u8,
    ]
}

/// The integer denoted by eight big-endian bytes.
pub open spec fn u64_from_be(s: Seq<u8>) -> int {
    s[0] * 0x100000000000000 + s[1] * 0x1000000000000 + s[2] * 0x10000000000 + s[3] * 0x100000000
        + s[4] * 0x1000000 + s[5] * 0x10000 + s[6] * 0x100 + s[7]
}

/// Reading back the big-endian bytes of an integer yields that integer.
pub proof fn lemma_u64_be_round_trip(x: u64)
    ensures
        u64_from_be(u64_be(x)) == x,
{
    let n = x as int;
    assert(n == (n / 0x100000000000000) * 0x100000000000000 + n % 0x100000000000000);
    assert(n % 0x100000000000000 == ((n / 0x1000000000000) % 0x100) * 0x1000000000000 + n
        % 0x1000000000000) by (nonlinear_arith)
        requires
            0 <= n < 0x10000000000000000,
    ;
    assert(n % 0x1000000000000 == ((n / 0x10000000000) % 0x100) * 0x10000000000 + n
        % 0x10000000000) by (nonlinear_arith)
        requires
            0 <= n,
    ;
    assert(n % 0x10000000000 == ((n / 0x100000000) % 0x100) * 0x100000000 + n % 0x100000000)
        by (nonlinear_arith)
        requires
            0 <= n,
    ;
    assert(n % 0x100000000 == ((n / 0x1000000) % 0x100) * 0x1000000 + n % 0x1000000)
        by (nonlinear_arith)
        requires
            0 <= n,
    ;
    assert(n % 0x1000000 == ((n / 0x10000) % 0x100) * 0x10000 + n % 0x10000) by (nonlinear_arith)
        requires
            0 <= n,
    ;
    assert(n % 0x10000 == ((n / 0x100) % 0x100) * 0x100 + n % 0x100) by (nonlinear_arith)
        requires
            0 <= n,
    ;
    assert(n / 0x100000000000000 == (n / 0x100000000000000) % 0x100) by (nonlinear_arith)
        requires
            0 <= n < 0x10000000000000000,
    ;
}

/// Append the big-endian bytes of `x` to `out`.
pub fn push_u64_be(out: &mut Vec<u8>, x: u64)
    ensures
        final(out)@ == old(out)@ + u64_be(x),
{
    out.push(((x / 0x100000000000000u64) % 256) as u8);
    out.push(((x / 0x1000000000000u64) % 256) as u8);
    out.push(((x / 0x10000000000u64) % 256) as u8);
    out.push(((x / 0x100000000u64) % 256) as u8);
    out.push(((x / 0x1000000u64) % 256) as u8);
    out.push(((x / 0x10000u64) % 256) as u8);
    out.push(((x / 0x100u64) % 256) as u8);
    out.push((x % 256) as u8);
    proof {
        assert(final(out)@ =~= old(out)@ + u64_be(x));
    }
}

/// Read the integer denoted by the eight big-endian bytes of `s` starting at
/// `at`.
pub fn read_u64_be(s: &Vec<u8>, at: usize) -> (r: u64)
    requires
        at + 8 <= s@.len(),
    ensures
        r == u64_from_be(s@.subrange(at as int, at as int + 8)),
{
    let n = s.len();
    assert(at + 8 <= n);
    let b0 = s[at] as u64;
    let b1 = s[at + 1] as u64;
    let b2 = s[at + 2] as u64;
    let b3 = s[at + 3] as u64;
    let b4 = s[at + 4] as u64;
    let b5 = s[at + 5] as u64;
    let b6 = s[at + 6] as u64;
    let b7 = s[at + 7] as u64;
    let r = b0 * 0x100000000000000 + b1 * 0x1000000000000 + b2 * 0x10000000000 + b3 * 0x100000000
        + b4 * 0x1000000 + b5 * 0x10000 + b6 * 0x100 + b7;
    proof {
        let w = s@.subrange(at as int, at as int + 8);
        assert(w[0] == s@[at as int] && w[1] == s@[at as int + 1] && w[2] == s@[at as int + 2]
            && w[3] == s@[at as int + 3] && w[4] == s@[at as int + 4] && w[5] == s@[at as int + 5]
            && w[6] == s@[at as int + 6] && w[7] == s@[at as int + 7]);
    }
    r
}

/// Append every byte of `src` to `dst`.
pub fn append_bytes(dst: &mut Vec<u8>, src: &Vec<u8>)
    ensures
        final(dst)@ == old(dst)@ + src@,
{
    let mut i: usize = 0;
    while i < src.len()
        invariant
            i <= src@.len(),
            dst@ == old(dst)@ + src@.take(i as int),
        decreases src@.len() - i,
    {
        let b = src[i];
        proof {
            assert((old(dst)@ + src@.take(i as int)).push(b) =~= old(dst)@ + src@.take(
                i as int + 1,
            ));
        }
        dst.push(b);
        i = i + 1;
    }
    proof {
        assert(src@.take(src@.len() as int) =~= src@);
    }
}

/// The concatenation of two byte vectors as a fresh vector.
pub fn concat_bytes(a: &Vec<u8>, b: &Vec<u8>) -> (r: Vec<u8>)
    ensures
        r@ == a@ + b@,
{
    let mut out: Vec<u8> = Vec::new();
    append_bytes(&mut out, a);
    append_bytes(&mut out, b);
    proof {
        assert(Seq::<u8>::empty() + a@ + b@ =~= a@ + b@);
    }
    out
}

} // verus!
