use flac::model::{Block, ChannelAssignment, Frame, Header, Metadata, StreamInfo, Subframe};
use flac::parser::{next_action, parse_marker, Action, Grammar, Parsed, ParserState, Step};
use flac::stream::{Iter, ParseError, Stream};

/// Metadata blocks laid out as: one byte holding the last flag and the type,
/// a 24-bit length, then the body; type 0 is stream-info (34 bytes).
/// Frames laid out as: 0xFF 0xF8, block size (u16), channels (u8),
/// assignment (u8), then per channel 0 + one i32, or 1 + block size i32s.
struct TestGrammar;

fn be(bytes: &[u8]) -> u64 {
    bytes.iter().fold(0u64, |a, b| (a << 8) | *b as u64)
}

impl Grammar for TestGrammar {
    fn metadata_block(&self, input: &[u8]) -> Parsed<Block> {
        if input.len() < 4 {
            return Parsed::Incomplete;
        }
        let is_last = input[0] & 0x80 != 0;
        let block_type = input[0] & 0x7f;
        let len = be(&input[1..4]) as usize;
        if input.len() < 4 + len {
            return Parsed::Incomplete;
        }
        let body = &input[4..4 + len];
        if block_type == 0 {
            if len != 34 {
                return Parsed::Error;
            }
            let packed = be(&body[10..18]);
            let info = StreamInfo {
                min_block_size: be(&body[0..2]) as u16,
                max_block_size: be(&body[2..4]) as u16,
                min_frame_size: be(&body[4..7]) as u32,
                max_frame_size: be(&body[7..10]) as u32,
                sample_rate: (packed >> 44) as u32,
                channels: ((packed >> 41) & 0x7) as u8 + 1,
                bits_per_sample: ((packed >> 36) & 0x1f) as u8 + 1,
                total_samples: packed & 0xf_ffff_ffff,
            };
            Parsed::Done(Block::StreamInfo(info, is_last), 4 + len)
        } else if block_type == 127 {
            Parsed::Error
        } else {
            Parsed::Done(Block::Other(Metadata { is_last, block_type, data: body.to_vec() }), 4 + len)
        }
    }

    fn frame(&self, input: &[u8], info: &StreamInfo) -> Parsed<Frame> {
        if input.len() < 6 {
            return Parsed::Incomplete;
        }
        if input[0] != 0xff || input[1] != 0xf8 {
            return Parsed::Error;
        }
        let block_size = be(&input[2..4]) as u16;
        let channels = input[4];
        let channel_assignment = match input[5] {
            0 => ChannelAssignment::Independent,
            1 => ChannelAssignment::LeftSide,
            2 => ChannelAssignment::RightSide,
            3 => ChannelAssignment::MiddleSide,
            _ => return Parsed::Error,
        };
        let _ = info;
        let mut pos = 6;
        let mut subframes = Vec::new();
        for _ in 0..channels {
            if input.len() <= pos {
                return Parsed::Incomplete;
            }
            let kind = input[pos];
            pos += 1;
            let count = if kind == 0 { 1 } else { block_size as usize };
            if input.len() < pos + 4 * count {
                return Parsed::Incomplete;
            }
            let values: Vec<i32> = (0..count)
                .map(|i| be(&input[pos + 4 * i..pos + 4 * i + 4]) as u32 as i32)
                .collect();
            pos += 4 * count;
            subframes.push(if kind == 0 { Subframe::Constant(values[0]) } else { Subframe::Verbatim(values) });
        }
        Parsed::Done(Frame { header: Header { block_size, channels, channel_assignment }, subframes }, pos)
    }
}

fn stream_info_block(last: bool, channels: u8, max_block: u16, total: u64) -> Vec<u8> {
    let mut b = vec![if last { 0x80 } else { 0x00 }, 0, 0, 34];
    b.extend_from_slice(&16u16.to_be_bytes());
    b.extend_from_slice(&max_block.to_be_bytes());
    b.extend_from_slice(&[0, 0, 0, 0, 0, 0]);
    let packed: u64 = (44100u64 << 44) | (((channels - 1) as u64) << 41) | (15u64 << 36) | total;
    b.extend_from_slice(&packed.to_be_bytes());
    b.extend_from_slice(&[0u8; 16]);
    b
}

fn other_block(last: bool, block_type: u8, body: &[u8]) -> Vec<u8> {
    let len = body.len() as u32;
    let mut b = vec![if last { 0x80 } else { 0x00 } | block_type, (len >> 16) as u8, (len >> 8) as u8, len as u8];
    b.extend_from_slice(body);
    b
}

fn verbatim_frame(assignment: u8, channels: &[Vec<i32>]) -> Vec<u8> {
    let block = channels[0].len() as u16;
    let mut b = vec![0xff, 0xf8];
    b.extend_from_slice(&block.to_be_bytes());
    b.push(channels.len() as u8);
    b.push(assignment);
    for ch in channels {
        b.push(1);
        for v in ch {
            b.extend_from_slice(&v.to_be_bytes());
        }
    }
    b
}

fn constant_frame(block: u16, values: &[i32]) -> Vec<u8> {
    let mut b = vec![0xff, 0xf8];
    b.extend_from_slice(&block.to_be_bytes());
    b.push(values.len() as u8);
    b.push(0);
    for v in values {
        b.push(0);
        b.extend_from_slice(&v.to_be_bytes());
    }
    b
}

fn marker() -> Vec<u8> {
    b"fLaC".to_vec()
}

fn stream_bytes(info: Vec<u8>, frames: &[Vec<u8>]) -> Vec<u8> {
    let mut b = marker();
    b.extend(info);
    for f in frames {
        b.extend_from_slice(f);
    }
    b
}

fn all_samples(bytes: &[u8], chunk: usize) -> Vec<i32> {
    let stream = Stream::from_chunks(&TestGrammar, bytes, chunk).unwrap();
    stream.iter().collect_samples()
}

#[test]
fn minimal_valid_stream() {
    let bytes = stream_bytes(
        stream_info_block(true, 2, 4096, 4),
        &[verbatim_frame(0, &[vec![1, 2, 3, 4], vec![-1, -2, -3, -4]])],
    );
    let stream = Stream::from_buffer(&TestGrammar, &bytes).unwrap();
    assert_eq!(stream.info().channels, 2);
    assert_eq!(stream.info().max_block_size, 4096);
    assert_eq!(stream.info().total_samples, 4);
    assert_eq!(stream.frames().len(), 1);
    assert_eq!(stream.buffer().len(), 4096 * 2);
    let mut it = stream.iter();
    let mut out = Vec::new();
    while let Some(v) = it.next() {
        out.push(v);
    }
    assert_eq!(out, vec![1, -1, 2, -2, 3, -3, 4, -4]);
}

#[test]
fn truncated_marker() {
    for input in [&b""[..], &b"f"[..], &b"fL"[..], &b"fLa"[..]] {
        assert_eq!(Stream::from_buffer(&TestGrammar, input).err(), Some(ParseError {}));
        assert_eq!(Stream::from_chunks(&TestGrammar, input, 1).err(), Some(ParseError {}));
    }
}

#[test]
fn wrong_marker_fails() {
    let mut bytes = stream_bytes(stream_info_block(true, 1, 16, 0), &[]);
    bytes[0] = b'F';
    assert!(Stream::from_buffer(&TestGrammar, &bytes).is_err());
    assert_eq!(parse_marker(b"OggS"), Step::Failed);
    assert_eq!(parse_marker(b"fLaCxyz"), Step::Progress(4));
    assert_eq!(parse_marker(b"fLa"), Step::NeedMore);
}

#[test]
fn multiple_metadata_blocks() {
    let mut bytes = marker();
    bytes.extend(other_block(false, 4, b"tags"));
    bytes.extend(other_block(false, 2, &[9, 8, 7]));
    bytes.extend(stream_info_block(true, 1, 16, 0));
    let stream = Stream::from_buffer(&TestGrammar, &bytes).unwrap();
    assert_eq!(stream.metadata.len(), 2);
    assert_eq!(stream.metadata[0].block_type, 4);
    assert_eq!(stream.metadata[0].data, b"tags".to_vec());
    assert_eq!(stream.metadata[1].block_type, 2);
    assert_eq!(stream.metadata[1].data, vec![9, 8, 7]);
    assert!(!stream.metadata[0].is_last && !stream.metadata[1].is_last);
    assert_eq!(stream.info().channels, 1);
    assert_eq!(stream.info().max_block_size, 16);
    assert_eq!(stream.info().sample_rate, 44100);
    assert_eq!(stream.state(), ParserState::Frame);
}

#[test]
fn metadata_after_stream_info_keeps_order() {
    let mut bytes = marker();
    bytes.extend(stream_info_block(false, 2, 8, 0));
    bytes.extend(other_block(false, 3, b"a"));
    bytes.extend(other_block(true, 4, b"b"));
    bytes.extend(constant_frame(2, &[5, 6]));
    let stream = Stream::from_buffer(&TestGrammar, &bytes).unwrap();
    assert_eq!(stream.metadata.len(), 2);
    assert_eq!(stream.metadata[0].data, b"a".to_vec());
    assert_eq!(stream.metadata[1].data, b"b".to_vec());
    assert!(stream.metadata[1].is_last);
    assert_eq!(stream.iter().collect_samples(), vec![5, 6, 5, 6]);
}

#[test]
fn later_stream_info_wins() {
    let mut bytes = marker();
    bytes.extend(stream_info_block(false, 2, 8, 0));
    bytes.extend(stream_info_block(true, 1, 32, 0));
    let stream = Stream::from_buffer(&TestGrammar, &bytes).unwrap();
    assert_eq!(stream.info().channels, 1);
    assert_eq!(stream.info().max_block_size, 32);
    assert_eq!(stream.buffer().len(), 32);
    assert!(stream.metadata.is_empty());
}

#[test]
fn round_trip_sample_count() {
    let bytes = stream_bytes(
        stream_info_block(true, 2, 4, 6),
        &[verbatim_frame(0, &[vec![1, 2, 3, 4], vec![5, 6, 7, 8]]), verbatim_frame(0, &[vec![9, 10], vec![11, 12]])],
    );
    let out = all_samples(&bytes, bytes.len());
    assert_eq!(out.len(), 12);
    assert_eq!(out, vec![1, 5, 2, 6, 3, 7, 4, 8, 9, 11, 10, 12]);
}

#[test]
fn declared_total_cuts_output() {
    let bytes = stream_bytes(
        stream_info_block(true, 2, 4, 3),
        &[verbatim_frame(0, &[vec![1, 2, 3, 4], vec![5, 6, 7, 8]])],
    );
    assert_eq!(all_samples(&bytes, bytes.len()), vec![1, 5, 2, 6, 3, 7]);
}

#[test]
fn unknown_total_reads_every_frame() {
    let bytes = stream_bytes(
        stream_info_block(true, 1, 4, 0),
        &[constant_frame(3, &[7]), constant_frame(1, &[-8])],
    );
    assert_eq!(all_samples(&bytes, 2), vec![7, 7, 7, -8]);
}

#[test]
fn short_frames_end_iteration_early() {
    let bytes = stream_bytes(stream_info_block(true, 1, 4, 100), &[constant_frame(2, &[3])]);
    assert_eq!(all_samples(&bytes, 5), vec![3, 3]);
}

#[test]
fn planar_interleave_consistency() {
    let bytes = stream_bytes(
        stream_info_block(true, 3, 4, 0),
        &[verbatim_frame(0, &[vec![1, 2, 3], vec![4, 5, 6], vec![7, 8, 9]])],
    );
    let mut stream = Stream::from_buffer(&TestGrammar, &bytes).unwrap();
    let n = stream.next_frame().unwrap();
    assert_eq!(n, 9);
    let planar = stream.buffer()[..n].to_vec();
    assert_eq!(planar, vec![1, 2, 3, 4, 5, 6, 7, 8, 9]);
    let mut expected = Vec::new();
    for s in 0..3 {
        for c in 0..3 {
            expected.push(planar[s + c * 3]);
        }
    }
    assert_eq!(expected, all_samples(&bytes, 7));
    assert_eq!(stream.next_frame(), None);
}

#[test]
fn stride_isolation() {
    let bytes = stream_bytes(
        stream_info_block(true, 2, 4, 0),
        &[
            verbatim_frame(0, &[vec![1, 2, 3, 4], vec![5, 6, 7, 8]]),
            verbatim_frame(0, &[vec![-1, -2], vec![-3, -4]]),
        ],
    );
    let mut stream = Stream::from_buffer(&TestGrammar, &bytes).unwrap();
    assert_eq!(stream.next_frame(), Some(8));
    assert_eq!(stream.next_frame(), Some(4));
    assert_eq!(&stream.buffer()[..4], &[-1, -2, -3, -4]);
    let out = all_samples(&bytes, 3);
    assert_eq!(out.len(), 12);
    assert_eq!(&out[8..], &[-1, -3, -2, -4]);
}

#[test]
fn chunking_gives_identical_stream() {
    let mut bytes = marker();
    bytes.extend(other_block(false, 4, b"comment"));
    bytes.extend(stream_info_block(true, 2, 4, 5));
    bytes.extend(verbatim_frame(0, &[vec![1, 2, 3], vec![4, 5, 6]]));
    bytes.extend(verbatim_frame(3, &[vec![10, 11], vec![3, -4]]));
    let whole = Stream::from_buffer(&TestGrammar, &bytes).unwrap();
    let expected = all_samples(&bytes, bytes.len());
    for chunk in [1usize, 2, 3, 5, 17, 1000] {
        let s = Stream::from_chunks(&TestGrammar, &bytes, chunk).unwrap();
        assert_eq!(s.info(), whole.info());
        assert_eq!(s.metadata.len(), whole.metadata.len());
        assert_eq!(s.metadata[0].data, whole.metadata[0].data);
        assert_eq!(s.frames().len(), whole.frames().len());
        assert_eq!(s.state(), ParserState::Frame);
        assert_eq!(all_samples(&bytes, chunk), expected);
    }
}

#[test]
fn idempotent_exhaustion() {
    let bytes = stream_bytes(stream_info_block(true, 1, 2, 2), &[constant_frame(2, &[4])]);
    let mut it: Iter = Stream::from_buffer(&TestGrammar, &bytes).unwrap().iter();
    assert_eq!(it.next(), Some(4));
    assert_eq!(it.next(), Some(4));
    for _ in 0..5 {
        assert_eq!(it.next(), None);
    }
    assert!(it.collect_samples().is_empty());
}

#[test]
fn left_side_reconstruction() {
    let bytes = stream_bytes(stream_info_block(true, 2, 2, 0), &[verbatim_frame(1, &[vec![10, -5], vec![3, -7]])]);
    assert_eq!(all_samples(&bytes, 4), vec![10, 7, -5, 2]);
}

#[test]
fn right_side_reconstruction() {
    let bytes = stream_bytes(stream_info_block(true, 2, 2, 0), &[verbatim_frame(2, &[vec![3, -7], vec![7, 2]])]);
    assert_eq!(all_samples(&bytes, 4), vec![10, 7, -5, 2]);
}

#[test]
fn mid_side_reconstruction() {
    // left 10, right 7: mid 8, side 3; left -5, right 2: mid -2 (floor of -1.5), side -7
    let bytes = stream_bytes(stream_info_block(true, 2, 2, 0), &[verbatim_frame(3, &[vec![8, -2], vec![3, -7]])]);
    assert_eq!(all_samples(&bytes, 4), vec![10, 7, -5, 2]);
}

#[test]
fn side_channel_wraps() {
    let bytes = stream_bytes(
        stream_info_block(true, 2, 1, 0),
        &[verbatim_frame(1, &[vec![i32::MIN], vec![1]])],
    );
    assert_eq!(all_samples(&bytes, 4), vec![i32::MIN, i32::MAX]);
}

#[test]
fn size_hint_counts_items_left() {
    let bytes = stream_bytes(stream_info_block(true, 2, 2, 2), &[constant_frame(2, &[1, 2])]);
    let mut it = Stream::from_buffer(&TestGrammar, &bytes).unwrap().iter();
    assert_eq!(it.size_hint(), (4, Some(4)));
    it.next();
    assert_eq!(it.size_hint(), (3, Some(3)));
    it.collect_samples();
    assert_eq!(it.size_hint(), (0, Some(0)));
    let unknown = stream_bytes(stream_info_block(true, 2, 2, 0), &[constant_frame(2, &[1, 2])]);
    assert_eq!(Stream::from_buffer(&TestGrammar, &unknown).unwrap().iter().size_hint(), (0, None));
}

#[test]
fn oversized_frame_is_rejected() {
    let bytes = stream_bytes(stream_info_block(true, 1, 2, 0), &[constant_frame(3, &[1])]);
    assert!(Stream::from_buffer(&TestGrammar, &bytes).is_err());
}

#[test]
fn channel_count_mismatch_is_rejected() {
    let bytes = stream_bytes(stream_info_block(true, 2, 4, 0), &[constant_frame(2, &[1])]);
    assert!(Stream::from_buffer(&TestGrammar, &bytes).is_err());
}

#[test]
fn side_assignment_needs_two_channels() {
    let bytes = stream_bytes(
        stream_info_block(true, 3, 4, 0),
        &[verbatim_frame(1, &[vec![1], vec![2], vec![3]])],
    );
    assert!(Stream::from_buffer(&TestGrammar, &bytes).is_err());
}

#[test]
fn input_ending_in_metadata_fails() {
    let mut bytes = marker();
    bytes.extend(stream_info_block(false, 2, 4, 0));
    assert!(Stream::from_buffer(&TestGrammar, &bytes).is_err());
    let mut cut = stream_bytes(stream_info_block(true, 2, 4, 0), &[]);
    cut.truncate(cut.len() - 3);
    assert!(Stream::from_chunks(&TestGrammar, &cut, 1).is_err());
}

#[test]
fn truncated_frame_fails() {
    let mut bytes = stream_bytes(stream_info_block(true, 1, 4, 0), &[constant_frame(2, &[1])]);
    bytes.pop();
    assert!(Stream::from_chunks(&TestGrammar, &bytes, 2).is_err());
}

#[test]
fn grammar_error_fails() {
    let mut bytes = marker();
    bytes.extend(other_block(true, 127, b""));
    assert!(Stream::from_buffer(&TestGrammar, &bytes).is_err());
}

struct StuckGrammar;

impl Grammar for StuckGrammar {
    fn metadata_block(&self, _input: &[u8]) -> Parsed<Block> {
        Parsed::Done(Block::StreamInfo(StreamInfo::new(), false), 0)
    }

    fn frame(&self, _input: &[u8], _info: &StreamInfo) -> Parsed<Frame> {
        Parsed::Error
    }
}

#[test]
fn misreported_progress_fails() {
    let mut bytes = marker();
    bytes.extend(vec![0u8; 8]);
    assert!(Stream::from_buffer(&StuckGrammar, &bytes).is_err());
}

#[test]
fn constant_and_verbatim_subframes() {
    let mut bytes = stream_bytes(stream_info_block(true, 2, 3, 0), &[]);
    let mut f = vec![0xff, 0xf8, 0, 3, 2, 0, 0];
    f.extend_from_slice(&9i32.to_be_bytes());
    f.push(1);
    for v in [1i32, 2, 3] {
        f.extend_from_slice(&v.to_be_bytes());
    }
    bytes.extend(f);
    assert_eq!(all_samples(&bytes, 3), vec![9, 1, 9, 2, 9, 3]);
}

#[test]
fn empty_stream_has_no_samples() {
    let s = Stream::new();
    assert_eq!(s.state(), ParserState::Marker);
    assert_eq!(s.info(), StreamInfo::new());
    assert!(s.frames().is_empty());
    let bytes = stream_bytes(stream_info_block(true, 2, 4, 0), &[]);
    let stream = Stream::from_buffer(&TestGrammar, &bytes).unwrap();
    assert_eq!(stream.buffer(), &[0; 8][..]);
    assert!(stream.iter().collect_samples().is_empty());
}

#[test]
fn frame_step_records_checked_frames() {
    let mut s = Stream::new();
    assert_eq!(s.handle_marker(b"fLaC"), Step::Progress(4));
    assert_eq!(s.state(), ParserState::Metadata);
    let mut info = StreamInfo::new();
    info.channels = 1;
    info.max_block_size = 4;
    assert_eq!(s.apply_block(Parsed::Done(Block::StreamInfo(info, true), 38), 40), Step::Progress(38));
    assert_eq!(s.state(), ParserState::Frame);
    let frame = Frame {
        header: Header { block_size: 2, channels: 1, channel_assignment: ChannelAssignment::Independent },
        subframes: vec![Subframe::Constant(1)],
    };
    assert_eq!(s.apply_frame(Parsed::Done(frame.clone(), 10), 9), Step::Failed);
    assert_eq!(s.apply_frame(Parsed::Incomplete, 9), Step::NeedMore);
    assert_eq!(s.apply_frame(Parsed::Done(frame, 9), 9), Step::Progress(9));
    assert_eq!(s.frames().len(), 1);
}

#[test]
fn short_verbatim_run_is_rejected() {
    let mut bytes = stream_bytes(stream_info_block(true, 1, 4, 0), &[]);
    let mut f = vec![0xff, 0xf8, 0, 3, 1, 0];
    f.push(1);
    for v in [1i32, 2, 3] {
        f.extend_from_slice(&v.to_be_bytes());
    }
    bytes.extend(f);
    assert!(Stream::from_buffer(&TestGrammar, &bytes).is_ok());
    let mut s = Stream::new();
    s.handle_marker(b"fLaC");
    let mut info = StreamInfo::new();
    info.channels = 1;
    info.max_block_size = 4;
    s.apply_block(Parsed::Done(Block::StreamInfo(info, true), 1), 1);
    let short = Frame {
        header: Header { block_size: 3, channels: 1, channel_assignment: ChannelAssignment::Independent },
        subframes: vec![Subframe::Verbatim(vec![1, 2])],
    };
    assert_eq!(s.apply_frame(Parsed::Done(short, 5), 5), Step::Failed);
    assert!(s.frames().is_empty());
}

#[test]
fn zero_length_frames_are_skipped() {
    let bytes = stream_bytes(
        stream_info_block(true, 1, 4, 0),
        &[constant_frame(2, &[1]), constant_frame(0, &[9]), constant_frame(0, &[9]), constant_frame(1, &[2])],
    );
    let mut it = Stream::from_buffer(&TestGrammar, &bytes).unwrap().iter();
    assert_eq!(it.next(), Some(1));
    assert_eq!(it.next(), Some(1));
    assert_eq!(it.next(), Some(2));
    assert_eq!(it.next(), None);
    assert_eq!(it.next(), None);
}

#[test]
fn next_frame_leaves_buffer_tail() {
    let bytes = stream_bytes(
        stream_info_block(true, 2, 4, 0),
        &[
            verbatim_frame(0, &[vec![1, 2, 3, 4], vec![5, 6, 7, 8]]),
            verbatim_frame(0, &[vec![-1], vec![-2]]),
        ],
    );
    let mut stream = Stream::from_buffer(&TestGrammar, &bytes).unwrap();
    assert_eq!(stream.next_frame(), Some(8));
    assert_eq!(stream.next_frame(), Some(2));
    assert_eq!(stream.buffer(), &[-1, -2, 3, 4, 5, 6, 7, 8][..]);
}

#[test]
fn driver_actions() {
    assert_eq!(next_action(Step::Progress(3), false), Action::Consume(3));
    assert_eq!(next_action(Step::Progress(3), true), Action::Consume(3));
    assert_eq!(next_action(Step::NeedMore, false), Action::Refill);
    assert_eq!(next_action(Step::NeedMore, true), Action::Fail);
    assert_eq!(next_action(Step::Failed, false), Action::Fail);
}

#[test]
fn failed_steps_change_nothing() {
    let mut s = Stream::new();
    assert_eq!(s.handle_marker(b"fLa"), Step::NeedMore);
    assert_eq!(s.state(), ParserState::Marker);
    assert_eq!(s.handle_marker(b"RIFF"), Step::Failed);
    assert_eq!(s.state(), ParserState::Marker);
    s.handle_marker(b"fLaC");
    assert_eq!(s.handle(&TestGrammar, &[0x7f, 0, 0, 0]), Step::Failed);
    assert_eq!(s.state(), ParserState::Metadata);
    assert!(s.metadata.is_empty());
    assert_eq!(s.handle(&TestGrammar, &[0x04, 0, 0]), Step::NeedMore);
    assert!(s.metadata.is_empty());
}
