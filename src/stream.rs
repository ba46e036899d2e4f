use vstd::prelude::*;
use crate::decode::decode_frame;
use crate::model::{check_frame, frame_fits, planar, interleaved, block_len, chan_len, Block, Frame, Metadata, StreamInfo};
use crate::producer::ByteWindow;
use crate::parser::{next_action, Action, marker_bytes, marker_step, parse_marker, rank, Grammar, Parsed, ParserState, Step};

verus! {

/// The single failure of stream construction: the input could not be parsed.
#[derive(Clone, Copy, Debug, PartialEq, Eq, Structural)]
pub struct ParseError {}

/// A parsed stream: its parameters, metadata and frames, with a decode
/// buffer reused by every frame and a cursor on the next frame to decode.
pub struct Stream {
    info: StreamInfo,
    pub metadata: Vec<Metadata>,
    frames: Vec<Frame>,
    state: ParserState,
    output: Vec<i32>,
    frame_index: usize,
}

impl Stream {
    pub closed spec fn spec_info(&self) -> StreamInfo {
        self.info
    }

    pub closed spec fn spec_metadata(&self) -> Seq<Metadata> {
        self.metadata@
    }

    pub closed spec fn spec_frames(&self) -> Seq<Frame> {
        self.frames@
    }

    pub closed spec fn spec_state(&self) -> ParserState {
        self.state
    }

    pub closed spec fn spec_buffer(&self) -> Seq<i32> {
        self.output@
    }

    /// Number of frames decoded so far.
    pub closed spec fn decoded(&self) -> int {
        self.frame_index as int
    }

    /// Every frame fits the stream parameters, and frames are only held once
    /// the parser has reached them.
    pub open spec fn parse_wf(&self) -> bool {
        &&& (self.spec_state() != ParserState::Frame ==> self.spec_frames().len() == 0)
        &&& forall|i: int| 0 <= i < self.spec_frames().len() ==> frame_fits(#[trigger] self.spec_frames()[i], self.spec_info())
        &&& self.decoded() == 0
    }

    /// A stream ready to decode: the buffer holds one block of the largest
    /// size for every channel, and the cursor lies within the frames.
    pub open spec fn wf(&self) -> bool {
        &&& forall|i: int| 0 <= i < self.spec_frames().len() ==> frame_fits(#[trigger] self.spec_frames()[i], self.spec_info())
        &&& self.spec_buffer().len() == self.spec_info().max_block_size as int * self.spec_info().channels as int
        &&& 0 <= self.decoded() <= self.spec_frames().len()
    }

    /// An empty stream, before the marker.
    pub fn new() -> (r: Stream)
        ensures
            r.parse_wf(),
            r.wf(),
            r.spec_state() == ParserState::Marker,
            r.spec_info() == StreamInfo::spec_new(),
            r.spec_metadata().len() == 0,
            r.spec_frames().len() == 0,
    {
        Stream {
            info: StreamInfo::new(),
            metadata: Vec::new(),
            frames: Vec::new(),
            state: ParserState::Marker,
            output: Vec::new(),
            frame_index: 0,
        }
    }

    pub fn info(&self) -> (r: StreamInfo)
        ensures
            r == self.spec_info(),
    {
        self.info
    }

    pub fn state(&self) -> (r: ParserState)
        ensures
            r == self.spec_state(),
    {
        self.state
    }

    pub fn frames(&self) -> (r: &Vec<Frame>)
        ensures
            r@ == self.spec_frames(),
    {
        &self.frames
    }

    /// The decode buffer; after a decode only its first `block_size * channels` samples are meaningful.
    pub fn buffer(&self) -> (r: &[i32])
        ensures
            r@ == self.spec_buffer(),
    {
        self.output.as_slice()
    }

    /// Reads the stream marker.
    pub fn handle_marker(&mut self, input: &[u8]) -> (r: Step)
        requires
            old(self).spec_state() == ParserState::Marker,
        ensures
            r == marker_step(input@),
            (r is Progress) ==> final(self).spec_state() == ParserState::Metadata,
            !(r is Progress) ==> final(self).spec_state() == ParserState::Marker,
            final(self).spec_info() == old(self).spec_info(),
            final(self).spec_metadata() == old(self).spec_metadata(),
            final(self).spec_frames() == old(self).spec_frames(),
            final(self).decoded() == old(self).decoded(),
            final(self).spec_buffer() == old(self).spec_buffer(),
            !(r is Progress) ==> *final(self) == *old(self),
    {
        let r = parse_marker(input);
        if let Step::Progress(_) = r {
            self.state = ParserState::Metadata;
        }
        r
    }

    /// Records what the grammar reported for one metadata block read from a
    /// window of `input_len` bytes. A stream-info block replaces the stream
    /// parameters, any other block is appended to the metadata; a block
    /// flagged last moves the parser on to frames.
    pub fn apply_block(&mut self, outcome: Parsed<Block>, input_len: usize) -> (r: Step)
        requires
            old(self).spec_state() == ParserState::Metadata,
            old(self).parse_wf(),
        ensures
            final(self).parse_wf(),
            final(self).spec_frames() == old(self).spec_frames(),
            final(self).spec_buffer() == old(self).spec_buffer(),
            !(r is Progress) ==> *final(self) == *old(self),
            match outcome {
                Parsed::Done(block, n) => if 1 <= n <= input_len {
                    &&& r == Step::Progress(n)
                    &&& final(self).spec_state() == (if block.spec_is_last() { ParserState::Frame } else { ParserState::Metadata })
                    &&& match block {
                        Block::StreamInfo(info, _) => final(self).spec_info() == info && final(self).spec_metadata() == old(self).spec_metadata(),
                        Block::Other(m) => final(self).spec_info() == old(self).spec_info()
                            && final(self).spec_metadata() == old(self).spec_metadata().push(m),
                    }
                } else {
                    r == Step::Failed && final(self).spec_state() == old(self).spec_state()
                },
                Parsed::Incomplete => r == Step::NeedMore && final(self).spec_state() == old(self).spec_state()
                    && final(self).spec_info() == old(self).spec_info() && final(self).spec_metadata() == old(self).spec_metadata(),
                Parsed::Error => r == Step::Failed && final(self).spec_state() == old(self).spec_state(),
            },
    {
        match outcome {
            Parsed::Done(block, n) => {
                if n == 0 || n > input_len {
                    return Step::Failed;
                }
                let last = match block {
                    Block::StreamInfo(info, last) => {
                        self.info = info;
                        last
                    },
                    Block::Other(m) => {
                        let last = m.is_last;
                        self.metadata.push(m);
                        last
                    },
                };
                if last {
                    self.state = ParserState::Frame;
                }
                Step::Progress(n)
            },
            Parsed::Incomplete => Step::NeedMore,
            Parsed::Error => Step::Failed,
        }
    }

    /// Reads one metadata block through the grammar.
    pub fn handle_metadata<G: Grammar>(&mut self, grammar: &G, input: &[u8]) -> (r: Step)
        requires
            old(self).spec_state() == ParserState::Metadata,
            old(self).parse_wf(),
        ensures
            final(self).parse_wf(),
            final(self).spec_frames() == old(self).spec_frames(),
            final(self).spec_state() == ParserState::Metadata || final(self).spec_state() == ParserState::Frame,
            final(self).spec_state() != old(self).spec_state() ==> (r is Progress),
            final(self).spec_buffer() == old(self).spec_buffer(),
            grows(old(self).spec_metadata(), final(self).spec_metadata()),
            !(r is Progress) ==> *final(self) == *old(self),
            (r is Progress) ==> 1 <= r->Progress_0 <= input@.len(),
    {
        let outcome = grammar.metadata_block(input);
        let ghost before = self.spec_metadata();
        let r = self.apply_block(outcome, input.len());
        proof {
            lemma_push_grows(before);
        }
        r
    }

    /// Records what the grammar reported for one frame read from a window of
    /// `input_len` bytes; a frame that does not fit the stream parameters is
    /// a parse failure.
    pub fn apply_frame(&mut self, outcome: Parsed<Frame>, input_len: usize) -> (r: Step)
        requires
            old(self).spec_state() == ParserState::Frame,
            old(self).parse_wf(),
        ensures
            final(self).parse_wf(),
            final(self).spec_state() == ParserState::Frame,
            final(self).spec_info() == old(self).spec_info(),
            final(self).spec_metadata() == old(self).spec_metadata(),
            final(self).spec_buffer() == old(self).spec_buffer(),
            !(r is Progress) ==> *final(self) == *old(self),
            match outcome {
                Parsed::Done(f, n) => if 1 <= n <= input_len && frame_fits(f, old(self).spec_info()) {
                    r == Step::Progress(n) && final(self).spec_frames() == old(self).spec_frames().push(f)
                } else {
                    r == Step::Failed && final(self).spec_frames() == old(self).spec_frames()
                },
                Parsed::Incomplete => r == Step::NeedMore && final(self).spec_frames() == old(self).spec_frames(),
                Parsed::Error => r == Step::Failed && final(self).spec_frames() == old(self).spec_frames(),
            },
    {
        match outcome {
            Parsed::Done(f, n) => {
                if n == 0 || n > input_len || !check_frame(&f, &self.info) {
                    return Step::Failed;
                }
                self.frames.push(f);
                assert forall|i: int| 0 <= i < self.spec_frames().len() implies frame_fits(
                    #[trigger] self.spec_frames()[i],
                    self.spec_info(),
                ) by {
                    if i < old(self).spec_frames().len() {
                        assert(self.spec_frames()[i] == old(self).spec_frames()[i]);
                    }
                }
                Step::Progress(n)
            },
            Parsed::Incomplete => Step::NeedMore,
            Parsed::Error => Step::Failed,
        }
    }

    /// Reads one frame through the grammar.
    pub fn handle_frame<G: Grammar>(&mut self, grammar: &G, input: &[u8]) -> (r: Step)
        requires
            old(self).spec_state() == ParserState::Frame,
            old(self).parse_wf(),
        ensures
            final(self).parse_wf(),
            final(self).spec_state() == ParserState::Frame,
            final(self).spec_info() == old(self).spec_info(),
            final(self).spec_metadata() == old(self).spec_metadata(),
            final(self).spec_buffer() == old(self).spec_buffer(),
            grows(old(self).spec_frames(), final(self).spec_frames()),
            !(r is Progress) ==> *final(self) == *old(self),
            (r is Progress) ==> 1 <= r->Progress_0 <= input@.len(),
    {
        let outcome = grammar.frame(input, &self.info);
        let ghost before = self.spec_frames();
        let r = self.apply_frame(outcome, input.len());
        proof {
            lemma_push_grows(before);
        }
        r
    }

    /// One step of the parser on a byte window: reads the unit that the
    /// current state expects. The state only moves forward, one state at a time.
    pub fn handle<G: Grammar>(&mut self, grammar: &G, input: &[u8]) -> (r: Step)
        requires
            old(self).parse_wf(),
        ensures
            final(self).parse_wf(),
            rank(old(self).spec_state()) <= rank(final(self).spec_state()) <= rank(old(self).spec_state()) + 1,
            (r is Progress) ==> 1 <= r->Progress_0 <= input@.len(),
            old(self).spec_state() == ParserState::Marker ==> r == marker_step(input@),
            old(self).spec_state() == ParserState::Marker ==> ((r is Progress) <==> final(self).spec_state() == ParserState::Metadata),
            final(self).spec_buffer() == old(self).spec_buffer(),
            final(self).decoded() == old(self).decoded(),
            grows(old(self).spec_metadata(), final(self).spec_metadata()),
            grows(old(self).spec_frames(), final(self).spec_frames()),
            !(r is Progress) ==> *final(self) == *old(self),
            final(self).spec_state() != old(self).spec_state() ==> (r is Progress),
    {
        match self.state {
            ParserState::Marker => {
                let r = self.handle_marker(input);
                proof {
                    lemma_push_grows(self.spec_metadata());
                    lemma_push_grows(self.spec_frames());
                }
                r
            },
            ParserState::Metadata => {
                let r = self.handle_metadata(grammar, input);
                proof {
                    lemma_push_grows(self.spec_frames());
                }
                r
            },
            ParserState::Frame => {
                let r = self.handle_frame(grammar, input);
                proof {
                    lemma_push_grows(self.spec_metadata());
                }
                r
            },
        }
    }

    /// Parses a whole stream from `producer`: the marker, the metadata blocks
    /// up to the one flagged last, then frames until the bytes run out. Any
    /// parse failure, a window that stays too short at the end of the input,
    /// or input that ends before the frames are reached fails the whole
    /// construction. On success every byte has been consumed and the decode
    /// buffer holds zeros, one block of the largest size for every channel.
    /// After each step the driver does what `next_action` decides; when the
    /// window is empty it fetches more bytes, or stops at the end of the input.
    pub fn from_stream_producer<G: Grammar>(grammar: &G, producer: &mut ByteWindow) -> (r: Result<Stream, ParseError>)
        requires
            old(producer).wf(),
            old(producer).spec_consumed() == 0,
        ensures
            match r {
                Ok(s) => {
                    &&& s.wf()
                    &&& s.decoded() == 0
                    &&& s.spec_state() == ParserState::Frame
                    &&& s.spec_buffer() == Seq::new(s.spec_buffer().len(), |i: int| 0i32)
                    &&& old(producer).spec_data().len() >= 4
                    &&& old(producer).spec_data().subrange(0, 4) == marker_bytes()
                },
                Err(_) => true,
            },
            r is Ok ==> final(producer).spec_consumed() == old(producer).spec_data().len(),
    {
        let mut stream = Stream::new();
        let ghost data = producer.spec_data();
        loop
            invariant
                producer.wf(),
                producer.spec_data() == data,
                stream.parse_wf(),
                stream.spec_state() == ParserState::Marker ==> producer.spec_consumed() == 0,
                stream.spec_state() != ParserState::Marker ==> data.len() >= 4 && data.subrange(0, 4) == marker_bytes(),
            ensures
                producer.wf(),
                producer.spec_data() == data,
                producer.spec_consumed() == data.len(),
                stream.parse_wf(),
                stream.spec_state() != ParserState::Marker ==> data.len() >= 4 && data.subrange(0, 4) == marker_bytes(),
            decreases (data.len() - producer.spec_consumed()) + (data.len() - producer.spec_available()),
        {
            let window = producer.window();
            if window.len() == 0 {
                if producer.at_end() {
                    break;
                }
                producer.refill();
                continue;
            }
            let ghost before = stream.spec_state();
            let step = stream.handle(grammar, window);
            proof {
                if before == ParserState::Marker && stream.spec_state() != ParserState::Marker {
                    assert(window@.subrange(0, 4) == marker_bytes());
                    assert(data.subrange(0, 4) =~= window@.subrange(0, 4));
                }
            }
            match next_action(step, producer.at_end()) {
                Action::Consume(n) => producer.consume(n),
                Action::Refill => {
                    producer.refill();
                },
                Action::Fail => return Err(ParseError {}),
            }
        }
        if stream.state != ParserState::Frame {
            return Err(ParseError {});
        }
        let max = stream.info.max_block_size as usize;
        let channels = stream.info.channels as usize;
        assert(max * channels <= 65535 * 255) by (nonlinear_arith) requires max <= 65535, channels <= 255;
        let size = max * channels;
        let mut output: Vec<i32> = Vec::new();
        while output.len() < size
            invariant
                output@.len() <= size,
                forall|i: int| 0 <= i < output@.len() ==> #[trigger] output@[i] == 0i32,
            decreases size - output@.len(),
        {
            output.push(0);
        }
        let ghost parsed = stream;
        stream.output = output;
        assert(stream.spec_frames() == parsed.spec_frames());
        assert(stream.spec_info() == parsed.spec_info());
        assert(stream.spec_buffer() =~= Seq::new(stream.spec_buffer().len(), |i: int| 0i32));
        Ok(stream)
    }

    /// Parses a stream from bytes delivered `chunk` at a time.
    pub fn from_chunks<G: Grammar>(grammar: &G, buffer: &[u8], chunk: usize) -> (r: Result<Stream, ParseError>)
        requires
            chunk > 0,
        ensures
            buffer@.len() < 4 ==> r is Err,
            match r {
                Ok(s) => {
                    &&& s.wf()
                    &&& s.decoded() == 0
                    &&& s.spec_state() == ParserState::Frame
                    &&& s.spec_buffer() == Seq::new(s.spec_buffer().len(), |i: int| 0i32)
                    &&& buffer@.subrange(0, 4) == marker_bytes()
                },
                Err(_) => true,
            },
    {
        let mut producer = ByteWindow::new(buffer, chunk);
        Stream::from_stream_producer(grammar, &mut producer)
    }

    /// Parses a stream from a buffer held whole in memory.
    pub fn from_buffer<G: Grammar>(grammar: &G, buffer: &[u8]) -> (r: Result<Stream, ParseError>)
        ensures
            buffer@.len() < 4 ==> r is Err,
            match r {
                Ok(s) => {
                    &&& s.wf()
                    &&& s.decoded() == 0
                    &&& s.spec_state() == ParserState::Frame
                    &&& s.spec_buffer() == Seq::new(s.spec_buffer().len(), |i: int| 0i32)
                    &&& buffer@.subrange(0, 4) == marker_bytes()
                },
                Err(_) => true,
            },
    {
        let chunk = if buffer.len() == 0 { 1 } else { buffer.len() };
        Stream::from_chunks(grammar, buffer, chunk)
    }

    /// Decodes the next frame into the front of the buffer in planar layout
    /// and returns the length of the region it filled, `block_size * channels`.
    /// Returns `None`, changing nothing, once every frame has been decoded.
    pub fn next_frame(&mut self) -> (r: Option<usize>)
        requires
            old(self).wf(),
        ensures
            final(self).wf(),
            final(self).spec_info() == old(self).spec_info(),
            final(self).spec_metadata() == old(self).spec_metadata(),
            final(self).spec_frames() == old(self).spec_frames(),
            final(self).spec_state() == old(self).spec_state(),
            old(self).decoded() < old(self).spec_frames().len() ==> {
                let f = old(self).spec_frames()[old(self).decoded()];
                &&& r == Some((block_len(f) * chan_len(f)) as usize)
                &&& final(self).decoded() == old(self).decoded() + 1
                &&& final(self).spec_buffer().subrange(0, block_len(f) * chan_len(f)) == planar(f)
            },
            old(self).decoded() < old(self).spec_frames().len() ==> {
                let f = old(self).spec_frames()[old(self).decoded()];
                forall|i: int| block_len(f) * chan_len(f) <= i < old(self).spec_buffer().len()
                    ==> #[trigger] final(self).spec_buffer()[i] == old(self).spec_buffer()[i]
            },
            final(self).spec_buffer().len() == old(self).spec_buffer().len(),
            old(self).decoded() >= old(self).spec_frames().len() ==> r is None && *final(self) == *old(self),
    {
        if self.frame_index >= self.frames.len() {
            return None;
        }
        let f = &self.frames[self.frame_index];
        assert(frame_fits(*f, self.info));
        let b = f.header.block_size as usize;
        let c = f.header.channels as usize;
        assert(b * c <= self.info.max_block_size as int * self.info.channels as int && b * c <= 65535 * 255)
            by (nonlinear_arith) requires b <= self.info.max_block_size, c == self.info.channels;
        decode_frame(f, &mut self.output);
        self.frame_index = self.frame_index + 1;
        Some(b * c)
    }

    /// Hands the stream to an iterator over its samples.
    pub fn iter(self) -> (r: Iter)
        requires
            self.wf(),
        ensures
            r.wf(),
            r.rest() == stream_samples(self),
            r.spec_stream() == self,
            r.spec_bounded() == (self.spec_info().total_samples > 0),
            r.items_left() == self.spec_info().total_samples * self.spec_info().channels,
    {
        Iter::new(self)
    }
}

/// `a` is a prefix of `b`.
pub open spec fn grows<T>(a: Seq<T>, b: Seq<T>) -> bool {
    a.len() <= b.len() && b.subrange(0, a.len() as int) == a
}

proof fn lemma_push_grows<T>(a: Seq<T>)
    ensures
        grows(a, a),
        forall|x: T| grows(a, #[trigger] a.push(x)),
{
    assert(a.subrange(0, a.len() as int) =~= a);
    assert forall|x: T| grows(a, #[trigger] a.push(x)) by {
        assert(a.push(x).subrange(0, a.len() as int) =~= a);
    }
}

/// The interleaved samples of a sequence of frames, one frame after another.
pub open spec fn samples_of(fs: Seq<Frame>) -> Seq<i32>
    decreases fs.len(),
{
    if fs.len() == 0 {
        Seq::empty()
    } else {
        interleaved(fs[0]) + samples_of(fs.drop_first())
    }
}

/// `s` cut to its first `n` items when the count is bounded.
pub open spec fn limit(s: Seq<i32>, bounded: bool, n: int) -> Seq<i32> {
    if bounded && n < s.len() {
        s.take(n)
    } else {
        s
    }
}

/// The samples that iterating over `s` yields: those of the frames not yet
/// decoded, cut to `total_samples * channels` when the total is known.
pub open spec fn stream_samples(s: Stream) -> Seq<i32> {
    limit(
        samples_of(s.spec_frames().skip(s.decoded())),
        s.spec_info().total_samples > 0,
        s.spec_info().total_samples * s.spec_info().channels,
    )
}

proof fn lemma_samples_of_skip(fs: Seq<Frame>, d: int)
    requires
        0 <= d < fs.len(),
    ensures
        samples_of(fs.skip(d)) == interleaved(fs[d]) + samples_of(fs.skip(d + 1)),
{
    assert(fs.skip(d).drop_first() =~= fs.skip(d + 1));
    assert(fs.skip(d)[0] == fs[d]);
}

/// A lazy, single-pass sequence of the stream's samples, channel-interleaved,
/// decoding a frame each time the current one is used up.
pub struct Iter {
    stream: Stream,
    channel: usize,
    block_size: usize,
    sample_index: usize,
    samples_left: u64,
    bounded: bool,
}

impl Iter {
    pub closed spec fn channels(&self) -> int {
        self.stream.info.channels as int
    }

    /// No sample of the current frame is left.
    pub closed spec fn exhausted(&self) -> bool {
        self.channels() == 0 || self.sample_index >= self.block_size
    }

    /// Index of the next item within the current frame's interleaved samples.
    pub closed spec fn cursor(&self) -> int {
        self.sample_index * self.channels() + self.channel
    }

    pub closed spec fn current_frame(&self) -> Frame {
        self.stream.frames@[self.stream.frame_index - 1]
    }

    /// What is left of the current frame.
    pub closed spec fn current(&self) -> Seq<i32> {
        if self.exhausted() {
            Seq::empty()
        } else {
            interleaved(self.current_frame()).skip(self.cursor())
        }
    }

    pub closed spec fn pending(&self) -> Seq<i32> {
        self.current() + samples_of(self.stream.frames@.skip(self.stream.frame_index as int))
    }

    pub closed spec fn spec_stream(&self) -> Stream {
        self.stream
    }

    /// Nothing is left to yield, and nothing further will be decoded: the
    /// declared total is reached, or every frame is decoded and used up.
    pub closed spec fn done(&self) -> bool {
        ||| self.bounded && self.samples_left == 0
        ||| self.exhausted() && self.stream.frame_index == self.stream.frames@.len()
    }

    /// Whether the stream declared its total number of samples.
    pub closed spec fn spec_bounded(&self) -> bool {
        self.bounded
    }

    /// Items still allowed by the declared total.
    pub closed spec fn items_left(&self) -> int {
        self.samples_left * self.channels() - self.channel
    }

    /// The items that the iterator has yet to yield.
    pub closed spec fn rest(&self) -> Seq<i32> {
        limit(self.pending(), self.bounded, self.items_left())
    }

    pub closed spec fn wf(&self) -> bool {
        &&& self.stream.wf()
        &&& (self.channels() > 0 ==> self.channel < self.channels())
        &&& (self.channels() == 0 ==> self.channel == 0)
        &&& self.sample_index <= self.block_size
        &&& (self.sample_index == self.block_size ==> self.channel == 0)
        &&& (self.bounded && self.channel > 0 ==> self.samples_left > 0)
        &&& (!self.exhausted() ==> {
            &&& self.stream.frame_index > 0
            &&& self.block_size == block_len(self.current_frame())
            &&& self.stream.output@.subrange(0, block_len(self.current_frame()) * self.channels())
                == planar(self.current_frame())
        })
    }

    /// An iterator over the samples of the frames of `stream` not yet decoded.
    pub fn new(stream: Stream) -> (r: Iter)
        requires
            stream.wf(),
        ensures
            r.wf(),
            r.rest() == stream_samples(stream),
            r.spec_stream() == stream,
            r.exhausted(),
            r.cursor() == 0,
            r.spec_bounded() == (stream.spec_info().total_samples > 0),
            r.items_left() == stream.spec_info().total_samples * stream.spec_info().channels,
    {
        let samples_left = stream.info.total_samples;
        let it = Iter { stream, channel: 0, block_size: 0, sample_index: 0, samples_left, bounded: samples_left > 0 };
        assert(it.current() =~= Seq::<i32>::empty());
        assert(it.pending() =~= samples_of(stream.spec_frames().skip(stream.decoded())));
        it
    }

    /// Yields the next sample: channel by channel within a sample position,
    /// decoding the next frame when the current one is used up. Once it
    /// returns `None` it keeps returning `None`.
    pub fn next(&mut self) -> (r: Option<i32>)
        requires
            old(self).wf(),
        ensures
            final(self).wf(),
            old(self).rest().len() == 0 ==> r is None && final(self).rest().len() == 0,
            old(self).rest().len() > 0 ==> r == Some(old(self).rest()[0]) && final(self).rest() == old(self).rest().drop_first(),
            r is None ==> final(self).done(),
            old(self).done() ==> r is None && *final(self) == *old(self),
            final(self).spec_bounded() == old(self).spec_bounded(),
            old(self).spec_bounded() && (r is Some) ==> final(self).items_left() == old(self).items_left() - 1,
            final(self).spec_stream().spec_frames() == old(self).spec_stream().spec_frames(),
            final(self).spec_stream().spec_info() == old(self).spec_stream().spec_info(),
            // frames are decoded only once the current one is used up, and
            // only past frames that hold no samples
            !old(self).exhausted() ==> final(self).spec_stream() == old(self).spec_stream(),
            old(self).spec_stream().decoded() <= final(self).spec_stream().decoded(),
            forall|i: int| old(self).spec_stream().decoded() <= i < final(self).spec_stream().decoded() - 1
                ==> (#[trigger] interleaved(old(self).spec_stream().spec_frames()[i])).len() == 0,
            (r is Some) && final(self).spec_stream().decoded() > old(self).spec_stream().decoded()
                ==> interleaved(final(self).spec_stream().spec_frames()[final(self).spec_stream().decoded() - 1]).len() > 0,
    {
        if self.bounded && self.samples_left == 0 {
            proof {
                assert(self.channel == 0);
                assert(self.items_left() == 0) by (nonlinear_arith)
                    requires self.items_left() == (self.samples_left as int) * self.channels() - self.channel,
                        self.samples_left == 0, self.channel == 0;
                if self.pending().len() > 0 {
                    assert(self.rest() =~= Seq::<i32>::empty());
                }
            }
            return None;
        }
        let channels = self.stream.info.channels as usize;
        let ghost pend = self.pending();
        assert(pend == old(self).pending());
        while channels == 0 || self.sample_index >= self.block_size
            invariant
                self.wf(),
                channels == self.channels(),
                self.pending() == pend,
                pend == old(self).pending(),
                self.channel == old(self).channel,
                self.samples_left == old(self).samples_left,
                self.bounded == old(self).bounded,
                self.bounded ==> self.samples_left > 0,
                old(self).done() ==> *self == *old(self),
                self.stream.frames@ == old(self).stream.frames@,
                self.stream.info == old(self).stream.info,
                old(self).stream.frame_index <= self.stream.frame_index,
                !old(self).exhausted() ==> *self == *old(self),
                forall|i: int| old(self).stream.frame_index <= i < self.stream.frame_index && (i < self.stream.frame_index - 1 || self.exhausted())
                    ==> (#[trigger] interleaved(self.stream.frames@[i])).len() == 0,
            decreases self.stream.frames@.len() - self.stream.frame_index,
        {
            let ghost d = self.stream.frame_index as int;
            let ghost fs = self.stream.frames@;
            assert(self.current() =~= Seq::<i32>::empty());
            assert(pend =~= samples_of(fs.skip(d)));
            match self.stream.next_frame() {
                None => {
                    assert(fs.skip(d) =~= Seq::<Frame>::empty());
                    assert(pend.len() == 0);
                    assert(self.pending() =~= Seq::<i32>::empty());
                    assert(self.rest() =~= Seq::<i32>::empty());
                    assert(old(self).pending().len() == 0);
                    assert(old(self).rest() =~= Seq::<i32>::empty());
                    return None;
                },
                Some(_) => {
                    proof {
                        lemma_samples_of_skip(fs, d);
                    }
                    self.block_size = self.stream.frames[self.stream.frame_index - 1].header.block_size as usize;
                    self.sample_index = 0;
                    proof {
                        let f = fs[d];
                        if !self.exhausted() {
                            assert(self.cursor() == 0);
                            assert(interleaved(f).skip(0) =~= interleaved(f));
                        } else {
                            assert(block_len(f) * chan_len(f) == 0) by (nonlinear_arith)
                                requires block_len(f) == 0 || chan_len(f) == 0;
                            assert(interleaved(f) =~= Seq::<i32>::empty());
                        }
                        assert(self.pending() =~= pend);
                    }
                },
            }
        }
        let len = self.stream.output.len();
        let b = self.block_size;
        let c = self.channel;
        let s = self.sample_index;
        let ghost f = self.current_frame();
        let ghost ch = channels as int;
        let ghost k = self.cursor();
        proof {
            let fi = self.stream.frame_index - 1;
            assert(frame_fits(self.stream.frames@[fi], self.stream.info));
            let mx = self.stream.info.max_block_size as int;
            assert(b * ch <= mx * ch) by (nonlinear_arith) requires b <= mx, ch >= 0;
            assert(b * ch <= len);
            assert(c * b + s < b * ch && k < b * ch && 0 <= k) by (nonlinear_arith)
                requires c < ch, s < b, k == s * ch + c;
            assert((c * b + s) / (b as int) == c && (c * b + s) % (b as int) == s) by (nonlinear_arith)
                requires s < b, 0 <= s, 0 <= c;
            assert(k % ch == c && k / ch == s) by (nonlinear_arith)
                requires c < ch, 0 <= c, 0 <= s, k == s * ch + c;
            assert(self.stream.output@.subrange(0, b * ch)[c * b + s] == planar(f)[c * b + s]);
            assert(self.pending()[0] == interleaved(f)[k]);
            assert(chan_len(f) == ch);
        }
        let v = self.stream.output[s + c * b];
        assert(v == self.pending()[0]);
        let ghost old_rest = self.rest();
        let ghost old_items = self.items_left();
        let ghost old_pending = self.pending();
        let ghost sl0 = self.samples_left as int;
        proof {
            if self.bounded {
                assert(self.samples_left * ch - c >= 1) by (nonlinear_arith)
                    requires self.samples_left >= 1, c < ch;
            }
        }
        if c + 1 == channels {
            self.channel = 0;
            self.sample_index = s + 1;
            if self.bounded {
                self.samples_left = self.samples_left - 1;
            }
        } else {
            self.channel = c + 1;
        }
        proof {
            assert(self.cursor() == k + 1) by (nonlinear_arith)
                requires
                    (c + 1 == ch ==> self.cursor() == (s + 1) * ch),
                    (c + 1 != ch ==> self.cursor() == s * ch + c + 1),
                    k == s * ch + c;
            if self.bounded {
                assert(self.items_left() == old_items - 1) by (nonlinear_arith)
                    requires
                        (c + 1 == ch ==> self.items_left() == (self.samples_left as int) * ch && self.samples_left + 1 == sl0),
                        (c + 1 != ch ==> self.items_left() == (self.samples_left as int) * ch - c - 1 && self.samples_left == sl0),
                        old_items == sl0 * ch - c;
            }
            if self.exhausted() {
                assert(k + 1 == b * ch) by (nonlinear_arith)
                    requires self.sample_index == s + 1, s + 1 == b, k == s * ch + c, c + 1 == ch;
                assert(interleaved(f).skip(k) =~= seq![interleaved(f)[k]]);
            } else {
                assert(interleaved(f).skip(k + 1) =~= interleaved(f).skip(k).drop_first());
            }
            assert(self.pending() =~= old_pending.drop_first());
            assert(self.rest() =~= old_rest.drop_first());
        }
        Some(v)
    }

    /// Bounds on the number of items left: the count still allowed by the
    /// declared total, as both bounds, or only as a lower bound saturated at
    /// `usize::MAX` when it does not fit; nothing when the total is unknown.
    pub fn size_hint(&self) -> (r: (usize, Option<usize>))
        requires
            self.wf(),
        ensures
            !self.spec_bounded() ==> r == (0usize, None::<usize>),
            self.spec_bounded() && self.items_left() <= usize::MAX ==> r == (
                self.items_left() as usize,
                Some(self.items_left() as usize),
            ),
            self.spec_bounded() && self.items_left() > usize::MAX ==> r == (usize::MAX, None::<usize>),
    {
        if !self.bounded {
            return (0, None);
        }
        let ch = self.stream.info.channels as u128;
        let sl = self.samples_left as u128;
        assert(sl * ch <= 0xffff_ffff_ffff_ffff * 255) by (nonlinear_arith)
            requires sl <= 0xffff_ffff_ffff_ffff, ch <= 255;
        assert(self.channel <= sl * ch) by (nonlinear_arith)
            requires self.channel < ch || self.channel == 0, sl >= 1 || self.channel == 0, ch >= 0;
        let items: u128 = sl * ch - self.channel as u128;
        if items > usize::MAX as u128 {
            (usize::MAX, None)
        } else {
            (items as usize, Some(items as usize))
        }
    }

    /// Drains the iterator into a vector.
    pub fn collect_samples(&mut self) -> (r: Vec<i32>)
        requires
            old(self).wf(),
        ensures
            final(self).wf(),
            r@ == old(self).rest(),
            final(self).rest().len() == 0,
    {
        let mut out: Vec<i32> = Vec::new();
        loop
            invariant
                self.wf(),
                out@ + self.rest() == old(self).rest(),
            ensures
                self.wf(),
                out@ == old(self).rest(),
                self.rest().len() == 0,
            decreases self.rest().len(),
        {
            let ghost before = self.rest();
            match self.next() {
                None => {
                    assert(self.rest().len() == 0);
                    assert(out@ =~= out@ + before);
                    break;
                },
                Some(v) => {
                    out.push(v);
                    assert(out@ + self.rest() =~= old(self).rest()) by {
                        assert(before =~= seq![v] + before.drop_first());
                    }
                },
            }
        }
        out
    }
}
} // verus!
