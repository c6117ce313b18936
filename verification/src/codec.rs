use vstd::prelude::*;
use crate::bitmap::{Bitmap, BitmapModel};

verus! {

/// 256 raised to the power `k`: the number of values `k` bytes can hold.
pub open spec fn pow256(k: nat) -> int
    decreases k,
{
    if k == 0 {
        1
    } else {
        256 * pow256((k - 1) as nat)
    }
}

/// The `k`-byte little-endian encoding of `n`.
pub open spec fn le_bytes(n: int, k: nat) -> Seq<u8>
    decreases k,
{
    if k == 0 {
        Seq::empty()
    } else {
        seq![(n % 256) as u8] + le_bytes(n / 256, (k - 1) as nat)
    }
}

/// The value of a little-endian byte sequence.
pub open spec fn le_val(s: Seq<u8>) -> int
    decreases s.len(),
{
    if s.len() == 0 {
        0
    } else {
        s.first() + 256 * le_val(s.drop_first())
    }
}

/// The on-disk form of a bitmap: the width and the height as eight
/// little-endian bytes each, then the flat pixel bytes.
pub open spec fn encoded(b: BitmapModel) -> Seq<u8> {
    le_bytes(b.width as int, 8) + le_bytes(b.height as int, 8) + b.pixels
}

/// What a byte sequence decodes to: `Some` exactly when the header is
/// complete, both dimensions fit the machine, and the pixel bytes have
/// exactly the advertised length.
pub open spec fn decode_model(bytes: Seq<u8>) -> Option<BitmapModel> {
    if bytes.len() < 16 {
        None
    } else {
        let w = le_val(bytes.subrange(0, 8));
        let h = le_val(bytes.subrange(8, 16));
        if w <= usize::MAX && h <= usize::MAX && bytes.len() == 16 + 4 * w * h {
            Some(BitmapModel { width: w as nat, height: h as nat, pixels: bytes.skip(16) })
        } else {
            None
        }
    }
}

/// A little-endian encoding is `k` bytes long.
pub proof fn lemma_le_bytes_len(n: int, k: nat)
    ensures
        le_bytes(n, k).len() == k,
    decreases k,
{
    if k > 0 {
        lemma_le_bytes_len(n / 256, (k - 1) as nat);
    }
}

/// The value of a little-endian byte sequence stays below the range of its
/// length.
pub proof fn lemma_le_val_bound(s: Seq<u8>)
    ensures
        0 <= le_val(s) < pow256(s.len()),
    decreases s.len(),
{
    if s.len() == 0 {
    } else {
        lemma_le_val_bound(s.drop_first());
        let rest = le_val(s.drop_first());
        let p = pow256((s.len() - 1) as nat);
        assert(s.first() + 256 * rest < 256 * p) by (nonlinear_arith)
            requires
                0 <= rest,
                rest < p,
                s.first() < 256,
        {}
        assert(0 <= s.first() + 256 * rest) by (nonlinear_arith)
            requires
                0 <= rest,
                0 <= s.first(),
        {}
    }
}

/// Reading back a little-endian encoding recovers the value.
pub proof fn lemma_le_round_trip(n: int, k: nat)
    requires
        0 <= n < pow256(k),
    ensures
        le_val(le_bytes(n, k)) == n,
    decreases k,
{
    if k == 0 {
    } else {
        let q = n / 256;
        let km1 = (k - 1) as nat;
        assert(0 <= q < pow256(km1)) by (nonlinear_arith)
            requires
                0 <= n < 256 * pow256(km1),
                q == n / 256,
        {}
        lemma_le_round_trip(q, km1);
        let s = le_bytes(n, k);
        assert(s.first() == (n % 256) as u8);
        assert(s.drop_first() =~= le_bytes(q, km1));
        assert(n % 256 + 256 * (n / 256) == n);
    }
}

/// The powers of 256 that the eight-byte header uses.
proof fn lemma_pow256_8()
    ensures
        pow256(8) == 0x10000000000000000,
{
    assert(pow256(0) == 1);
    assert(pow256(1) == 256);
    assert(pow256(2) == 0x10000);
    assert(pow256(3) == 0x1000000);
    assert(pow256(4) == 0x100000000);
    assert(pow256(5) == 0x10000000000);
    assert(pow256(6) == 0x1000000000000);
    assert(pow256(7) == 0x100000000000000);
    assert(pow256(8) == 0x10000000000000000);
}

/// Appends the eight little-endian bytes of `n`.
fn push_le8(out: &mut Vec<u8>, n: u64)
    ensures
        final(out)@ == old(out)@ + le_bytes(n as int, 8),
{
    let mut v = n;
    let mut k: usize = 0;
    while k < 8
        invariant
            k <= 8,
            old(out)@ + le_bytes(n as int, 8) =~= out@ + le_bytes(v as int, (8 - k) as nat),
        decreases 8 - k,
    {
        let ghost pre = out@;
        let ghost vpre = v as int;
        out.push((v % 256) as u8);
        v = v / 256;
        proof {
            assert(le_bytes(vpre, (8 - k) as nat) =~= seq![(vpre % 256) as u8] + le_bytes(
                vpre / 256,
                (8 - (k + 1)) as nat,
            ));
            assert(pre + le_bytes(vpre, (8 - k) as nat) =~= out@ + le_bytes(
                v as int,
                (8 - (k + 1)) as nat,
            ));
        }
        k = k + 1;
    }
    proof {
        assert(le_bytes(v as int, 0) =~= Seq::<u8>::empty());
        assert(out@ =~= old(out)@ + le_bytes(n as int, 8));
    }
}

/// Reads the eight little-endian bytes at `off` back into a value.
fn read_le8(bytes: &Vec<u8>, off: usize) -> (r: u64)
    requires
        off + 8 <= bytes@.len(),
    ensures
        r as int == le_val(bytes@.subrange(off as int, off as int + 8)),
{
    let glen = bytes.len();
    let mut v: u64 = 0;
    let mut i: usize = 8;
    while i > 0
        invariant
            i <= 8,
            glen == bytes@.len(),
            off + 8 <= glen,
            v as int == le_val(bytes@.subrange(off + i, off as int + 8)),
            (v as int) < pow256((8 - i) as nat),
        decreases i,
    {
        let ghost sub_pre = bytes@.subrange(off + i, off as int + 8);
        let b = bytes[off + i - 1];
        proof {
            lemma_pow256_8();
            assert(pow256((8 - i) as nat) <= pow256(7)) by {
                lemma_pow256_monotone((8 - i) as nat, 7);
            }
            assert(256 * (v as int) + b < 256 * pow256(7)) by (nonlinear_arith)
                requires
                    0 <= v as int && (v as int) < pow256(7),
                    0 <= b < 256,
            {}
            assert(256 * pow256(7) == pow256(8));
        }
        v = v * 256 + (b as u64);
        proof {
            let sub = bytes@.subrange(off + i - 1, off as int + 8);
            assert(sub.first() == b);
            assert(sub.drop_first() =~= sub_pre);
            assert(v as int == le_val(sub));
            assert((v as int) < pow256((8 - (i - 1)) as nat)) by {
                lemma_le_val_bound(sub);
                assert(sub.len() == 8 - (i - 1));
            }
        }
        i = i - 1;
    }
    v
}

/// Powers of 256 grow with the exponent.
proof fn lemma_pow256_monotone(a: nat, b: nat)
    requires
        a <= b,
    ensures
        pow256(a) <= pow256(b),
        pow256(a) >= 1,
    decreases b,
{
    if a < b {
        lemma_pow256_monotone(a, (b - 1) as nat);
        assert(pow256(b) == 256 * pow256((b - 1) as nat));
        assert(256 * pow256((b - 1) as nat) >= pow256((b - 1) as nat)) by (nonlinear_arith)
            requires
                pow256((b - 1) as nat) >= 1,
        {}
    } else if a == b && a == 0 {
    } else {
        lemma_pow256_monotone((a - 1) as nat, (b - 1) as nat);
        assert(pow256(b) == 256 * pow256((b - 1) as nat));
        assert(pow256(b) >= 1) by (nonlinear_arith)
            requires
                pow256((b - 1) as nat) >= 1,
                pow256(b) == 256 * pow256((b - 1) as nat),
        {}
    }
}

/// Serializes a bitmap to its on-disk byte form.
pub fn encode_bitmap(b: &Bitmap) -> (r: Vec<u8>)
    ensures
        r@ == encoded(b@),
{
    let mut out: Vec<u8> = Vec::new();
    proof {
        lemma_pow256_8();
        assert((usize::MAX as int) < pow256(8));
    }
    push_le8(&mut out, b.width as u64);
    push_le8(&mut out, b.height as u64);
    let n = b.pixels.len();
    let mut i: usize = 0;
    while i < n
        invariant
            n == b.pixels@.len(),
            i <= n,
            out@ =~= le_bytes(b@.width as int, 8) + le_bytes(b@.height as int, 8)
                + b.pixels@.subrange(0, i as int),
        decreases n - i,
    {
        out.push(b.pixels[i]);
        proof {
            assert(b.pixels@.subrange(0, i + 1) =~= b.pixels@.subrange(0, i as int).push(
                b.pixels@[i as int],
            ));
        }
        i = i + 1;
    }
    proof {
        assert(b.pixels@.subrange(0, n as int) =~= b.pixels@);
        assert(out@ =~= encoded(b@));
    }
    out
}

/// Restores a bitmap from its on-disk byte form. Returns the bitmap exactly
/// when the bytes are a complete encoding; any truncated, oversized or
/// inconsistent input is rejected.
pub fn decode_bitmap(bytes: &Vec<u8>) -> (r: Option<Bitmap>)
    ensures
        match r {
            Some(b) => decode_model(bytes@) == Some(b@) && b@.wf(),
            None => decode_model(bytes@) is None,
        },
{
    if bytes.len() < 16 {
        return None;
    }
    let w64 = read_le8(bytes, 0);
    let h64 = read_le8(bytes, 8);
    if w64 > usize::MAX as u64 || h64 > usize::MAX as u64 {
        return None;
    }
    let w = w64 as usize;
    let h = h64 as usize;
    proof {
        assert((w as int) * (h as int) <= 0xFFFFFFFFFFFFFFFFint * 0xFFFFFFFFFFFFFFFFint)
            by (nonlinear_arith)
            requires
                0 <= w as int <= 0xFFFFFFFFFFFFFFFFint,
                0 <= h as int <= 0xFFFFFFFFFFFFFFFFint,
        {}
    }
    let area: u128 = (w as u128) * (h as u128);
    if area > ((usize::MAX - 16) / 4) as u128 {
        proof {
            assert(4 * (w as int) * (h as int) > usize::MAX - 16) by (nonlinear_arith)
                requires
                    (w as int) * (h as int) == area as int,
                    area as int > (usize::MAX - 16) as int / 4,
            {}
        }
        return None;
    }
    let expected: usize = 16 + (4 * area) as usize;
    proof {
        assert(4 * (area as int) <= usize::MAX - 16);
        assert(expected == 16 + 4 * (w as int) * (h as int)) by (nonlinear_arith)
            requires
                (w as int) * (h as int) == area as int,
                expected == 16 + 4 * (area as int),
        {}
    }
    if bytes.len() != expected {
        return None;
    }
    let mut pixels: Vec<u8> = Vec::new();
    let n = bytes.len();
    let mut i: usize = 16;
    while i < n
        invariant
            16 <= i <= n,
            n == bytes@.len(),
            pixels@ =~= bytes@.subrange(16, i as int),
        decreases n - i,
    {
        pixels.push(bytes[i]);
        proof {
            assert(bytes@.subrange(16, i + 1) =~= bytes@.subrange(16, i as int).push(
                bytes@[i as int],
            ));
        }
        i = i + 1;
    }
    proof {
        assert(pixels@ =~= bytes@.skip(16));
        assert(pixels@.len() == 4 * (w as int) * (h as int));
    }
    Some(Bitmap { width: w, height: h, pixels })
}

/// Writing a bitmap and reading the bytes back yields the original bitmap,
/// pixel for pixel: the on-disk encoding is lossless.
pub proof fn lemma_codec_round_trip(b: BitmapModel)
    requires
        b.wf(),
        b.width <= usize::MAX,
        b.height <= usize::MAX,
    ensures
        decode_model(encoded(b)) == Some(b),
{
    let e = encoded(b);
    lemma_pow256_8();
    lemma_le_bytes_len(b.width as int, 8);
    lemma_le_bytes_len(b.height as int, 8);
    assert(e.subrange(0, 8) =~= le_bytes(b.width as int, 8));
    assert(e.subrange(8, 16) =~= le_bytes(b.height as int, 8));
    lemma_le_round_trip(b.width as int, 8);
    lemma_le_round_trip(b.height as int, 8);
    assert(e.skip(16) =~= b.pixels);
    assert(decode_model(e) == Some(b));
}

} // verus!
