use vstd::prelude::*;
use vstd::arithmetic::div_mod::{lemma_fundamental_div_mod, lemma_div_multiples_vanish_fancy, lemma_mod_multiples_vanish};
use crate::model::{block_len, chan_len, planar, restore, subframe_sample, mid_side_left, mid_side_right, ChannelAssignment, Frame, Subframe};

verus! {

/// Writes the `block_size` samples of a subframe at `start` in `out`.
pub fn decode_subframe(sub: &Subframe, out: &mut Vec<i32>, start: usize, block_size: usize)
    requires
        start + block_size <= old(out)@.len(),
    ensures
        final(out)@.len() == old(out)@.len(),
        forall|j: int| 0 <= j < block_size ==> #[trigger] final(out)@[start + j] == subframe_sample(*sub, j),
        forall|i: int| 0 <= i < old(out)@.len() && !(start <= i < start + block_size)
            ==> #[trigger] final(out)@[i] == old(out)@[i],
{
    let len = out.len();
    let mut j: usize = 0;
    while j < block_size
        invariant
            len == out@.len(),
            j <= block_size,
            start + block_size <= out@.len(),
            out@.len() == old(out)@.len(),
            forall|k: int| 0 <= k < j ==> #[trigger] out@[start + k] == subframe_sample(*sub, k),
            forall|i: int| 0 <= i < old(out)@.len() && !(start <= i < start + j)
                ==> #[trigger] out@[i] == old(out)@[i],
        decreases block_size - j,
    {
        let v: i32 = match sub {
            Subframe::Constant(c) => *c,
            Subframe::Verbatim(s) => if j < s.len() { s[j] } else { 0 },
        };
        out.set(start + j, v);
        j = j + 1;
    }
}

#[verifier::truncate]
fn wrap(x: i64) -> (r: i32)
    ensures
        r == x as i32,
{
    x as i32
}

/// Restores left and right from the mean `mid` and the difference `side`.
fn mid_side(mid: i32, side: i32) -> (r: (i32, i32))
    ensures
        r.0 == mid_side_left(mid, side),
        r.1 == mid_side_right(mid, side),
{
    let p: i64 = if side % 2 != 0 { 1 } else { 0 };
    let m2: i64 = 2 * (mid as i64) + p;
    let l: i64 = (m2 + side as i64) / 2;
    let r: i64 = (m2 - side as i64) / 2;
    (wrap(l), wrap(r))
}

/// Reconstructs the channels of a planar block of `block_size` samples per
/// channel, in place.
pub fn restore_channels(m: ChannelAssignment, out: &mut Vec<i32>, block_size: usize, channels: usize)
    requires
        block_size * channels <= old(out)@.len(),
        m != ChannelAssignment::Independent ==> channels == 2,
    ensures
        final(out)@.len() == old(out)@.len(),
        forall|i: int| 0 <= i < block_size * channels ==> #[trigger] final(out)@[i] == restore(
            m,
            i / block_size as int,
            old(out)@[i % block_size as int],
            old(out)@[block_size + i % block_size as int],
            old(out)@[i],
        ),
        forall|i: int| block_size * channels <= i < old(out)@.len() ==> #[trigger] final(out)@[i] == old(out)@[i],
{
    if m == ChannelAssignment::Independent {
        return;
    }
    let ghost o = out@;
    let b = block_size;
    assert(b + b == b * channels);
    let len = out.len();
    let mut j: usize = 0;
    while j < b
        invariant
            len == out@.len(),
            m != ChannelAssignment::Independent,
            channels == 2,
            j <= b,
            b + b <= o.len(),
            b * channels <= o.len(),
            b == block_size,
            out@.len() == o.len(),
            o == old(out)@,
            forall|k: int| 0 <= k < j ==> #[trigger] out@[k] == restore(m, 0, o[k], o[b + k], o[k]),
            forall|k: int| 0 <= k < j ==> #[trigger] out@[b + k] == restore(m, 1, o[k], o[b + k], o[b + k]),
            forall|i: int| 0 <= i < o.len() && !(0 <= i < j) && !(b <= i < b + j) ==> #[trigger] out@[i] == o[i],
        decreases b - j,
    {
        let a = out[j];
        let s = out[b + j];
        let (x, y): (i32, i32) = match m {
            ChannelAssignment::LeftSide => (a, wrap(a as i64 - s as i64)),
            ChannelAssignment::RightSide => (wrap(a as i64 + s as i64), s),
            _ => mid_side(a, s),
        };
        out.set(j, x);
        out.set(b + j, y);
        j = j + 1;
    }
    assert forall|i: int| 0 <= i < block_size * channels implies #[trigger] out@[i] == restore(
        m,
        i / block_size as int,
        o[i % block_size as int],
        o[block_size + i % block_size as int],
        o[i],
    ) by {
        let bi = b as int;
        if i < bi {
            vstd::arithmetic::div_mod::lemma_small_mod(i as nat, bi as nat);
            vstd::arithmetic::div_mod::lemma_basic_div(i, bi);
        } else {
            assert(bi * 2 == bi + bi) by (nonlinear_arith);
            lemma_mod_multiples_vanish(1, i - bi, bi);
            vstd::arithmetic::div_mod::lemma_small_mod((i - bi) as nat, bi as nat);
            lemma_div_multiples_vanish_fancy(1, i - bi, bi);
            vstd::arithmetic::div_mod::lemma_basic_div(i - bi, bi);
            assert(bi * 1 + (i - bi) == i);
        }
    }
}

/// Decodes a frame into the front of `out` in planar layout.
pub fn decode_frame(f: &Frame, out: &mut Vec<i32>)
    requires
        f.subframes@.len() == chan_len(*f),
        f.header.channel_assignment != ChannelAssignment::Independent ==> chan_len(*f) == 2,
        block_len(*f) * chan_len(*f) <= old(out)@.len(),
    ensures
        final(out)@.len() == old(out)@.len(),
        final(out)@.subrange(0, block_len(*f) * chan_len(*f)) == planar(*f),
        forall|i: int| block_len(*f) * chan_len(*f) <= i < old(out)@.len() ==> #[trigger] final(out)@[i] == old(out)@[i],
{
    let b = f.header.block_size as usize;
    let n = f.header.channels as usize;
    let len = out.len();
    let mut c: usize = 0;
    while c < n
        invariant
            len == out@.len(),
            c <= n,
            b == block_len(*f),
            n == chan_len(*f),
            f.subframes@.len() == n,
            b * n <= out@.len(),
            out@.len() == old(out)@.len(),
            forall|k: int, j: int| 0 <= k < c && 0 <= j < b ==> #[trigger] out@[k * b + j] == subframe_sample(f.subframes@[k], j),
            forall|i: int| b * n <= i < out@.len() ==> #[trigger] out@[i] == old(out)@[i],
        decreases n - c,
    {
        assert(c * b + b <= b * n) by (nonlinear_arith) requires c < n;
        let ghost before = out@;
        decode_subframe(&f.subframes[c], out, c * b, b);
        assert forall|k: int, j: int| 0 <= k < c + 1 && 0 <= j < b implies #[trigger] out@[k * b + j] == subframe_sample(f.subframes@[k], j) by {
            if k < c {
                let (ci, bi) = (c as int, b as int);
                assert(k * bi + j < ci * bi) by (nonlinear_arith) requires k < ci, 0 <= j < bi;
                assert(0 <= k * bi) by (nonlinear_arith) requires k >= 0, bi >= 0;
                assert(before[k * b + j] == subframe_sample(f.subframes@[k], j));
            } else {
                assert(out@[c * b + j] == subframe_sample(f.subframes@[k], j));
            }
        }
        c = c + 1;
    }
    let ghost raw = out@;
    restore_channels(f.header.channel_assignment, out, b, n);
    assert forall|i: int| 0 <= i < b * n implies #[trigger] out@[i] == planar(*f)[i] by {
        let bi = b as int;
        let ni = n as int;
        assert(bi > 0) by (nonlinear_arith) requires i >= 0, i < bi * ni, ni >= 0;
        lemma_fundamental_div_mod(i, bi);
        let q = i / bi;
        let r = i % bi;
        assert(0 <= r < bi);
        assert(0 <= q < ni) by (nonlinear_arith) requires i == bi * q + r, 0 <= r < bi, 0 <= i < bi * ni;
        assert(q * bi + r == i) by (nonlinear_arith) requires i == bi * q + r;
        assert(raw[i] == subframe_sample(f.subframes@[q], r));
        if f.header.channel_assignment != ChannelAssignment::Independent {
            assert(0 * bi + r == r);
            assert(raw[r] == subframe_sample(f.subframes@[0], r));
            assert(1 * bi + r == bi + r);
            assert(raw[bi + r] == subframe_sample(f.subframes@[1], r));
        }
    }
    assert(out@.subrange(0, block_len(*f) * chan_len(*f)) =~= planar(*f));
}

} // verus!
