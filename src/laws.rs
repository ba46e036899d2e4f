use vstd::prelude::*;
use crate::model::{block_len, chan_len, interleaved, planar, Frame};
use crate::stream::{samples_of, stream_samples, Stream};

verus! {

/// A stream that declares a total of `N > 0` samples per channel over `C`
/// channels, and whose frames carry at least that many, yields exactly
/// `N * C` samples from a fresh iterator.
pub proof fn lemma_sample_count(s: Stream)
    requires
        s.wf(),
        s.decoded() == 0,
        s.spec_info().total_samples > 0,
        samples_of(s.spec_frames()).len() >= s.spec_info().total_samples * s.spec_info().channels,
    ensures
        stream_samples(s).len() == s.spec_info().total_samples * s.spec_info().channels,
{
    assert(s.spec_frames().skip(0) =~= s.spec_frames());
}

/// Reading a decoded frame's planar samples at `s + c * B` gives the same
/// value as the interleaved sequence that the iterator yields, at `s * C + c`.
pub proof fn lemma_planar_interleave(f: Frame, s: int, c: int)
    requires
        0 <= s < block_len(f),
        0 <= c < chan_len(f),
    ensures
        planar(f).len() == interleaved(f).len(),
        0 <= s * chan_len(f) + c < interleaved(f).len(),
        0 <= s + c * block_len(f) < planar(f).len(),
        interleaved(f)[s * chan_len(f) + c] == planar(f)[s + c * block_len(f)],
{
    let b = block_len(f);
    let n = chan_len(f);
    assert(0 <= s * n + c < b * n) by (nonlinear_arith) requires 0 <= s < b, 0 <= c < n;
    assert(0 <= s + c * b < b * n) by (nonlinear_arith) requires 0 <= s < b, 0 <= c < n;
    assert((s * n + c) % n == c && (s * n + c) / n == s) by (nonlinear_arith) requires 0 <= s, 0 <= c < n;
    assert((s + c * b) % b == s && (s + c * b) / b == c) by (nonlinear_arith) requires 0 <= s < b, 0 <= c;
}

/// The samples of a frame that follows another one depend on that frame
/// alone: a smaller block after a larger one yields exactly its own
/// `block_size * channels` samples, whatever the earlier frame left behind.
pub proof fn lemma_stride_isolation(earlier: Frame, f: Frame, later: Seq<Frame>)
    ensures
        samples_of(seq![earlier, f] + later) == interleaved(earlier) + interleaved(f) + samples_of(later),
        interleaved(f).len() == block_len(f) * chan_len(f),
{
    let fs = seq![earlier, f] + later;
    assert(fs.drop_first() =~= seq![f] + later);
    assert((seq![f] + later).drop_first() =~= later);
    assert(samples_of(fs) == interleaved(earlier) + samples_of(fs.drop_first()));
    assert(samples_of(seq![f] + later) == interleaved(f) + samples_of(later));
    assert(interleaved(earlier) + (interleaved(f) + samples_of(later)) =~= interleaved(earlier) + interleaved(f) + samples_of(later));
    assert(block_len(f) * chan_len(f) >= 0) by (nonlinear_arith) requires block_len(f) >= 0, chan_len(f) >= 0;
}

proof fn lemma_samples_of_append(a: Seq<Frame>, b: Seq<Frame>)
    ensures
        samples_of(a + b) == samples_of(a) + samples_of(b),
    decreases a.len(),
{
    if a.len() == 0 {
        assert(a + b =~= b);
        assert(samples_of(a) + samples_of(b) =~= samples_of(b));
    } else {
        assert((a + b).drop_first() =~= a.drop_first() + b);
        assert((a + b)[0] == a[0]);
        lemma_samples_of_append(a.drop_first(), b);
        assert(interleaved(a[0]) + (samples_of(a.drop_first()) + samples_of(b))
            =~= (interleaved(a[0]) + samples_of(a.drop_first())) + samples_of(b));
    }
}

/// Frame `i` of a sequence yields its samples right after those of the
/// frames before it, as many as its own block size times its channels, and
/// item `k` of that span is its decoded planar sample at `(k % C) * B + k / C`:
/// the stride is the frame's own block size, whatever frames came before.
pub proof fn lemma_frame_span(fs: Seq<Frame>, i: int, k: int)
    requires
        0 <= i < fs.len(),
        0 <= k < block_len(fs[i]) * chan_len(fs[i]),
    ensures
        ({
            let f = fs[i];
            let off = samples_of(fs.take(i)).len() as int;
            &&& off + block_len(f) * chan_len(f) <= samples_of(fs).len()
            &&& samples_of(fs).subrange(off, off + block_len(f) * chan_len(f)) == interleaved(f)
            &&& samples_of(fs)[off + k] == planar(f)[(k % chan_len(f)) * block_len(f) + k / chan_len(f)]
        }),
{
    let f = fs[i];
    let b = block_len(f);
    let n = chan_len(f);
    let tail = fs.skip(i + 1);
    assert(fs =~= fs.take(i) + (seq![f] + tail));
    lemma_samples_of_append(fs.take(i), seq![f] + tail);
    assert((seq![f] + tail).drop_first() =~= tail);
    assert(samples_of(seq![f] + tail) == interleaved(f) + samples_of(tail));
    let off = samples_of(fs.take(i)).len() as int;
    assert(samples_of(fs) =~= samples_of(fs.take(i)) + (interleaved(f) + samples_of(tail)));
    assert(samples_of(fs).subrange(off, off + b * n) =~= interleaved(f));
    assert(n > 0 && b > 0) by (nonlinear_arith) requires 0 <= k < b * n, b >= 0, n >= 0;
    let c = k % n;
    let s = k / n;
    assert(0 <= c < n && 0 <= s < b && k == s * n + c) by (nonlinear_arith) requires 0 <= k < b * n, n > 0, c == k % n, s == k / n;
    lemma_planar_interleave(f, s, c);
    assert(s + c * b == c * b + s);
    assert(interleaved(f)[k] == samples_of(fs)[off + k]);
}
} // verus!
