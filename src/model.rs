use vstd::prelude::*;

verus! {

/// Stream-wide parameters carried by the stream-info metadata block.
#[derive(Clone, Copy, Debug, PartialEq, Eq, Structural)]
pub struct StreamInfo {
    pub min_block_size: u16,
    pub max_block_size: u16,
    pub min_frame_size: u32,
    pub max_frame_size: u32,
    pub sample_rate: u32,
    pub channels: u8,
    pub bits_per_sample: u8,
    /// Samples per channel in the whole stream; zero when unknown.
    pub total_samples: u64,
}

impl StreamInfo {
    /// All parameters zero.
    pub open spec fn spec_new() -> StreamInfo {
        StreamInfo {
            min_block_size: 0,
            max_block_size: 0,
            min_frame_size: 0,
            max_frame_size: 0,
            sample_rate: 0,
            channels: 0,
            bits_per_sample: 0,
            total_samples: 0,
        }
    }

    /// The parameters of a stream whose stream-info block has not been seen.
    pub fn new() -> (r: StreamInfo)
        ensures
            r == StreamInfo::spec_new(),
    {
        StreamInfo {
            min_block_size: 0,
            max_block_size: 0,
            min_frame_size: 0,
            max_frame_size: 0,
            sample_rate: 0,
            channels: 0,
            bits_per_sample: 0,
            total_samples: 0,
        }
    }
}

/// A metadata block other than stream-info; its body is kept as raw bytes.
#[derive(Clone, Debug)]
pub struct Metadata {
    pub is_last: bool,
    pub block_type: u8,
    pub data: Vec<u8>,
}

/// What the grammar reads as one metadata block.
#[derive(Clone, Debug)]
pub enum Block {
    StreamInfo(StreamInfo, bool),
    Other(Metadata),
}

impl Block {
    pub open spec fn spec_is_last(self) -> bool {
        match self {
            Block::StreamInfo(_, last) => last,
            Block::Other(m) => m.is_last,
        }
    }
}

/// How the channels of a frame are stored.
#[derive(Clone, Copy, Debug, PartialEq, Eq, Structural)]
pub enum ChannelAssignment {
    Independent,
    /// Channel 0 holds left, channel 1 holds left minus right.
    LeftSide,
    /// Channel 0 holds left minus right, channel 1 holds right.
    RightSide,
    /// Channel 0 holds the mean, channel 1 holds left minus right.
    MiddleSide,
}

#[derive(Clone, Copy, Debug, PartialEq, Eq, Structural)]
pub struct Header {
    pub block_size: u16,
    pub channels: u8,
    pub channel_assignment: ChannelAssignment,
}

/// One channel of a frame with its prediction already undone by the grammar.
#[derive(Clone, Debug)]
pub enum Subframe {
    Constant(i32),
    Verbatim(Vec<i32>),
}

/// A parsed frame: its header and one subframe per channel.
#[derive(Clone, Debug)]
pub struct Frame {
    pub header: Header,
    pub subframes: Vec<Subframe>,
}

/// Sample `j` of a subframe; a verbatim run shorter than the block is padded with zeros.
pub open spec fn subframe_sample(s: Subframe, j: int) -> i32 {
    match s {
        Subframe::Constant(v) => v,
        Subframe::Verbatim(v) => if 0 <= j < v@.len() { v@[j] } else { 0 },
    }
}

/// The parity of a sample, as 0 or 1.
pub open spec fn parity(x: i32) -> int {
    x as int % 2
}

/// Left channel restored from mean and difference.
pub open spec fn mid_side_left(mid: i32, side: i32) -> i32 {
    ((2 * mid + parity(side) + side) / 2) as i32
}

/// Right channel restored from mean and difference.
pub open spec fn mid_side_right(mid: i32, side: i32) -> i32 {
    ((2 * mid + parity(side) - side) / 2) as i32
}

/// Sample of channel `c` after channel reconstruction, from the raw samples
/// `a` and `b` of channels 0 and 1 and `own` of channel `c` at the same
/// position, in the wrapping arithmetic of 32-bit samples.
pub open spec fn restore(m: ChannelAssignment, c: int, a: i32, b: i32, own: i32) -> i32 {
    match m {
        ChannelAssignment::Independent => own,
        ChannelAssignment::LeftSide => if c == 0 { a } else { (a - b) as i32 },
        ChannelAssignment::RightSide => if c == 0 { (a + b) as i32 } else { b },
        ChannelAssignment::MiddleSide => if c == 0 { mid_side_left(a, b) } else { mid_side_right(a, b) },
    }
}

/// Sample `j` of channel `c` of a decoded frame.
pub open spec fn frame_sample(f: Frame, c: int, j: int) -> i32 {
    restore(
        f.header.channel_assignment,
        c,
        subframe_sample(f.subframes@[0], j),
        subframe_sample(f.subframes@[1], j),
        subframe_sample(f.subframes@[c], j),
    )
}

/// Number of samples per channel in a frame.
pub open spec fn block_len(f: Frame) -> int {
    f.header.block_size as int
}

/// Number of channels in a frame.
pub open spec fn chan_len(f: Frame) -> int {
    f.header.channels as int
}

/// A frame's decoded samples in planar layout: channel `c`, sample `j` at `c * B + j`.
pub open spec fn planar(f: Frame) -> Seq<i32> {
    Seq::new((block_len(f) * chan_len(f)) as nat, |i: int| frame_sample(f, i / block_len(f), i % block_len(f)))
}

/// A frame's decoded samples interleaved: sample `j` of channel `c` at `j * C + c`.
pub open spec fn interleaved(f: Frame) -> Seq<i32> {
    Seq::new((block_len(f) * chan_len(f)) as nat, |k: int| frame_sample(f, k % chan_len(f), k / chan_len(f)))
}

/// A verbatim subframe holds exactly one block of samples.
pub open spec fn subframe_fits(s: Subframe, block_size: int) -> bool {
    match s {
        Subframe::Constant(_) => true,
        Subframe::Verbatim(v) => v@.len() == block_size,
    }
}

/// A frame is consistent with the stream parameters: as many channels and
/// subframes as the stream declares, a block that fits the decode buffer,
/// verbatim runs of exactly one block, and exactly two channels where the
/// assignment pairs them.
pub open spec fn frame_fits(f: Frame, info: StreamInfo) -> bool {
    &&& f.header.channels == info.channels
    &&& forall|c: int| 0 <= c < f.subframes@.len() ==> subframe_fits(#[trigger] f.subframes@[c], f.header.block_size as int)
    &&& f.header.block_size <= info.max_block_size
    &&& f.subframes@.len() == f.header.channels as int
    &&& (f.header.channel_assignment != ChannelAssignment::Independent ==> f.header.channels == 2)
}

/// Tests `frame_fits`.
pub fn check_frame(f: &Frame, info: &StreamInfo) -> (r: bool)
    ensures
        r == frame_fits(*f, *info),
{
    let b = f.header.block_size as usize;
    let mut c: usize = 0;
    while c < f.subframes.len()
        invariant
            c <= f.subframes@.len(),
            b == f.header.block_size,
            forall|k: int| 0 <= k < c ==> subframe_fits(#[trigger] f.subframes@[k], b as int),
        decreases f.subframes@.len() - c,
    {
        let ok = match &f.subframes[c] {
            Subframe::Constant(_) => true,
            Subframe::Verbatim(v) => v.len() == b,
        };
        if !ok {
            return false;
        }
        c = c + 1;
    }
    f.header.channels == info.channels && f.header.block_size <= info.max_block_size
        && f.subframes.len() == f.header.channels as usize && (match f.header.channel_assignment {
        ChannelAssignment::Independent => true,
        _ => f.header.channels == 2,
    })
}

} // verus!
