use defmt_kernel::bitflags::BitflagsRegistry;
use defmt_kernel::rzcobs::unstuff;
use defmt_kernel::stream::{decode_chunk, decode_frame, encode_index, split_frames};
use defmt_kernel::{
    Encoding, Error, FrameEncoder, Logger, StreamDecoder, StringEntry, Table, TableEntry, Tag,
};

fn entry(tag: Tag, string: &str, symbol: &str) -> TableEntry {
    TableEntry::new(StringEntry::new(tag, string.to_string()), symbol.to_string())
}

fn hello_table(encoding: Encoding) -> Table {
    let entries = vec![
        (0, entry(Tag::Info, "hello {=u8}", "sym_hello")),
        (1, entry(Tag::Timestamp, "{=u32}", "sym_time")),
    ];
    Table::new(entries, encoding, None, BitflagsRegistry::new()).unwrap()
}

fn session(logger: &mut Logger, index: u16, args: &[u8]) -> Vec<u8> {
    let mut sink = Vec::new();
    logger.acquire(&mut sink).unwrap();
    logger.write(&encode_index(index), &mut sink);
    logger.write(args, &mut sink);
    logger.release(&mut sink);
    sink
}

/// The index and the arguments of each resolved frame, the error of each dropped one.
fn summary(outcomes: &[Result<defmt_kernel::Frame<'_>, Error>]) -> Vec<Result<(usize, Vec<u8>), Error>> {
    outcomes
        .iter()
        .map(|outcome| match outcome {
            Ok(frame) => Ok((frame.index(), frame.args().to_vec())),
            Err(error) => Err(*error),
        })
        .collect()
}

#[test]
fn unstuff_undoes_mask_groups() {
    assert_eq!(unstuff(&[]), Ok(vec![]));
    assert_eq!(unstuff(&[0x7f]), Ok(vec![0; 7]));
    assert_eq!(unstuff(&[0x7f, 0x7f]), Ok(vec![0; 14]));
    assert_eq!(unstuff(&[0x01, 0x7e]), Ok(vec![1, 0, 0, 0, 0, 0, 0]));
    assert_eq!(unstuff(&[0x01, 0x7d]), Ok(vec![0, 1, 0, 0, 0, 0, 0]));
    assert_eq!(unstuff(&[0x01, 0x02, 0x7c]), Ok(vec![1, 2, 0, 0, 0, 0, 0]));
    assert_eq!(unstuff(&[0x2a, 0x7b]), Ok(vec![0, 0, 42, 0, 0, 0, 0]));
    assert_eq!(
        unstuff(&[0x11, 0x22, 0x33, 0x44, 0x55, 0x66, 0x40]),
        Ok(vec![0x11, 0x22, 0x33, 0x44, 0x55, 0x66, 0x00])
    );
    assert_eq!(unstuff(&[0x44, 0x5f, 0xff, 0x3f]), Ok(vec![0, 0, 0, 0, 0, 0x44, 0, 0, 0, 0, 0, 0, 0, 0xff]));
}

#[test]
fn unstuff_undoes_run_groups() {
    assert_eq!(
        unstuff(&[0x11, 0x22, 0x33, 0x44, 0x55, 0x66, 0x77, 0x80]),
        Ok(vec![0x11, 0x22, 0x33, 0x44, 0x55, 0x66, 0x77, 0x00])
    );
    assert_eq!(
        unstuff(&[0x11, 0x22, 0x33, 0x44, 0x55, 0x66, 0x77, 0x88, 0x81]),
        Ok(vec![0x11, 0x22, 0x33, 0x44, 0x55, 0x66, 0x77, 0x88, 0x00])
    );
    let long: Vec<u8> = (1..=134).collect();
    let mut stuffed = long.clone();
    stuffed.push(0xff);
    assert_eq!(unstuff(&stuffed), Ok(long.clone()));
    stuffed.push(0x7f);
    let mut expected = long;
    expected.extend([0; 7]);
    assert_eq!(unstuff(&stuffed), Ok(expected));
    let shorter: Vec<u8> = (1..=133).collect();
    let mut stuffed = shorter.clone();
    stuffed.push(0xfe);
    let mut expected = shorter;
    expected.push(0);
    assert_eq!(unstuff(&stuffed), Ok(expected));
}

#[test]
fn unstuff_refuses_malformed_frames() {
    assert_eq!(unstuff(&[0x00]), Err(Error::MalformedFrame));
    assert_eq!(unstuff(&[0x01, 0x00]), Err(Error::MalformedFrame));
    assert_eq!(unstuff(&[0x7e]), Err(Error::MalformedFrame));
    assert_eq!(unstuff(&[0x80]), Err(Error::MalformedFrame));
    assert_eq!(unstuff(&[1, 2, 3, 4, 5, 6, 0x80]), Err(Error::MalformedFrame));
    assert_eq!(unstuff(&[0xff]), Err(Error::MalformedFrame));
    assert_eq!(unstuff(&[0x80, 0x55]), Err(Error::MalformedFrame));
    let short: Vec<u8> = (1..=133).chain([0xff]).collect();
    assert_eq!(unstuff(&short), Err(Error::MalformedFrame));
    assert_eq!(unstuff(&[0x00, 0x7f]), Err(Error::MalformedFrame));
}

#[test]
fn stuffing_is_undone_up_to_trailing_zeros() {
    let frames: Vec<Vec<u8>> = vec![
        vec![],
        vec![0],
        vec![1],
        vec![0, 0, 42],
        vec![1, 0, 7, 0, 9],
        vec![9, 8, 7, 6, 5, 4, 3],
        vec![9, 8, 7, 6, 5, 4, 3, 2, 1],
        vec![9, 8, 7, 6, 5, 4, 3, 0, 1, 0, 0, 0, 0, 0, 0, 0, 0, 5],
        (0..=255u8).collect(),
        (1..=200u8).collect(),
        (0..=255u8).rev().chain(0..=255u8).collect(),
    ];
    let mut encoder = FrameEncoder::new(Encoding::Rzcobs);
    for frame in frames {
        let mut wire = Vec::new();
        encoder.start_frame(&mut wire);
        encoder.write(&frame, &mut wire);
        encoder.end_frame(&mut wire);
        let (chunks, rest) = split_frames(&wire);
        assert_eq!(rest, wire.len());
        if frame.is_empty() {
            assert!(chunks.is_empty());
            continue;
        }
        assert_eq!(chunks.len(), 1);
        let undone = unstuff(&chunks[0]).unwrap();
        assert!(undone.len() >= frame.len());
        assert!(undone.len() < frame.len() + 7);
        assert_eq!(&undone[..frame.len()], &frame[..]);
        assert!(undone[frame.len()..].iter().all(|byte| *byte == 0));
    }
}

#[test]
fn split_cuts_at_delimiters() {
    assert_eq!(split_frames(&[]), (vec![], 0));
    assert_eq!(split_frames(&[1, 2, 3]), (vec![], 0));
    assert_eq!(split_frames(&[0]), (vec![], 1));
    assert_eq!(split_frames(&[0, 0, 0]), (vec![], 3));
    assert_eq!(split_frames(&[1, 2, 0]), (vec![vec![1, 2]], 3));
    assert_eq!(split_frames(&[1, 2, 0, 3]), (vec![vec![1, 2]], 3));
    assert_eq!(split_frames(&[0, 1, 0x7e, 0, 0x7f, 0]), (vec![vec![1, 0x7e], vec![0x7f]], 6));
    assert_eq!(split_frames(&[0, 0, 5, 0, 0, 6, 7, 0, 0, 8]), (vec![vec![5], vec![6, 7]], 9));
}

#[test]
fn frame_resolves_to_entry_and_arguments() {
    let table = hello_table(Encoding::Raw);
    let frame = decode_frame(&table, &[0, 0, 42]).unwrap();
    assert_eq!(frame.index(), 0);
    assert_eq!(frame.entry(), &entry(Tag::Info, "hello {=u8}", "sym_hello"));
    assert_eq!(frame.args(), &[42]);
    let frame = decode_frame(&table, &[1, 0]).unwrap();
    assert_eq!(frame.index(), 1);
    assert_eq!(frame.entry(), &entry(Tag::Timestamp, "{=u32}", "sym_time"));
    assert!(frame.args().is_empty());
}

#[test]
fn frame_with_high_index_resolves() {
    let entries = vec![(0x1234, entry(Tag::Error, "failed", "sym_failed"))];
    let table = Table::new(entries, Encoding::Raw, None, BitflagsRegistry::new()).unwrap();
    let frame = decode_frame(&table, &[0x34, 0x12, 1, 2, 3]).unwrap();
    assert_eq!(frame.index(), 0x1234);
    assert_eq!(frame.args(), &[1, 2, 3]);
    assert_eq!(decode_frame(&table, &[0x12, 0x34]).err(), Some(Error::UnresolvedIndex));
}

#[test]
fn frame_without_index_is_malformed() {
    let table = hello_table(Encoding::Raw);
    assert_eq!(decode_frame(&table, &[]).err(), Some(Error::MalformedFrame));
    assert_eq!(decode_frame(&table, &[0]).err(), Some(Error::MalformedFrame));
}

#[test]
fn frame_with_unknown_index_is_unresolved() {
    let table = hello_table(Encoding::Raw);
    assert_eq!(decode_frame(&table, &[2, 0, 42]).err(), Some(Error::UnresolvedIndex));
    assert_eq!(decode_frame(&table, &[0, 1]).err(), Some(Error::UnresolvedIndex));
}

#[test]
fn chunk_is_unstuffed_and_resolved() {
    let table = hello_table(Encoding::Rzcobs);
    let frame = decode_chunk(&table, &[0x2a, 0x7b]).unwrap();
    assert_eq!(frame.index(), 0);
    assert_eq!(frame.args(), &[42, 0, 0, 0, 0]);
    assert_eq!(decode_chunk(&table, &[0x80, 0x55]).err(), Some(Error::MalformedFrame));
    assert_eq!(decode_chunk(&table, &[0x09, 0x7e]).err(), Some(Error::UnresolvedIndex));
}

#[test]
fn decoder_refuses_unsupported_version() {
    let table = hello_table(Encoding::Raw);
    assert_eq!(StreamDecoder::new(&table, "5").err(), Some(Error::UnsupportedVersion));
    assert_eq!(StreamDecoder::new(&table, "").err(), Some(Error::UnsupportedVersion));
    assert!(StreamDecoder::new(&table, "3").is_ok());
    assert!(StreamDecoder::new(&table, "4").is_ok());
}

#[test]
fn raw_session_is_decoded_end_to_end() {
    let table = hello_table(Encoding::Raw);
    let mut logger = Logger::new(table.encoding(), false);
    let wire = session(&mut logger, 0, &[42]);
    assert_eq!(wire, vec![0, 0, 42]);
    let mut decoder = StreamDecoder::new(&table, "4").unwrap();
    let outcomes = decoder.received(&wire);
    assert_eq!(outcomes.len(), 1);
    let frame = outcomes[0].as_ref().unwrap();
    assert_eq!(frame.index(), 0);
    assert_eq!(Some(frame.entry()), table.lookup(0));
    assert_eq!(frame.entry(), &entry(Tag::Info, "hello {=u8}", "sym_hello"));
    assert_eq!(frame.args(), &[42]);
    assert!(!decoder.is_aborted());
}

#[test]
fn raw_decoder_aborts_on_the_first_error() {
    let table = hello_table(Encoding::Raw);
    let mut decoder = StreamDecoder::new(&table, "3").unwrap();
    assert_eq!(summary(&decoder.received(&[1, 0, 5])), vec![Ok((1, vec![5]))]);
    assert!(!decoder.is_aborted());
    assert_eq!(summary(&decoder.received(&[9, 0, 5])), vec![Err(Error::UnresolvedIndex)]);
    assert!(decoder.is_aborted());
    assert_eq!(summary(&decoder.received(&[0, 0, 42])), vec![]);
    assert_eq!(summary(&decoder.received(&[1, 0])), vec![]);
    assert!(decoder.is_aborted());
}

#[test]
fn raw_decoder_aborts_on_a_short_read() {
    let table = hello_table(Encoding::Raw);
    let mut decoder = StreamDecoder::new(&table, "3").unwrap();
    assert_eq!(summary(&decoder.received(&[0])), vec![Err(Error::MalformedFrame)]);
    assert!(decoder.is_aborted());
    assert_eq!(summary(&decoder.received(&[0, 0, 42])), vec![]);
}

#[test]
fn rzcobs_stream_is_decoded_end_to_end() {
    let table = hello_table(Encoding::Rzcobs);
    let mut logger = Logger::new(table.encoding(), false);
    let mut wire = session(&mut logger, 0, &[42]);
    wire.extend(session(&mut logger, 1, &[7, 0, 9]));
    let mut decoder = StreamDecoder::new(&table, "4").unwrap();
    assert_eq!(
        summary(&decoder.received(&wire)),
        vec![Ok((0, vec![42, 0, 0, 0, 0])), Ok((1, vec![7, 0, 9, 0, 0]))]
    );
}

#[test]
fn rzcobs_decoder_resynchronises_after_damage() {
    let table = hello_table(Encoding::Rzcobs);
    let mut logger = Logger::new(table.encoding(), false);
    let frame_a = session(&mut logger, 0, &[42]);
    let frame_b = session(&mut logger, 1, &[7, 0, 9]);
    let mut wire = frame_a;
    wire.extend([0x80, 0x55, 0x00]);
    wire.extend(frame_b);
    let mut decoder = StreamDecoder::new(&table, "4").unwrap();
    assert_eq!(
        summary(&decoder.received(&wire)),
        vec![
            Ok((0, vec![42, 0, 0, 0, 0])),
            Err(Error::MalformedFrame),
            Ok((1, vec![7, 0, 9, 0, 0])),
        ]
    );
    assert!(!decoder.is_aborted());
}

#[test]
fn rzcobs_decoder_survives_a_damaged_frame() {
    let table = hello_table(Encoding::Rzcobs);
    let mut logger = Logger::new(table.encoding(), false);
    let mut wire = session(&mut logger, 0, &[1, 2, 3, 4, 5, 6, 7, 8, 9]);
    let damaged_at = 3;
    wire.remove(damaged_at);
    wire.extend(session(&mut logger, 9, &[]));
    wire.extend(session(&mut logger, 1, &[5]));
    let mut decoder = StreamDecoder::new(&table, "4").unwrap();
    let outcomes = summary(&decoder.received(&wire));
    assert_eq!(outcomes.len(), 3);
    assert_eq!(outcomes[0], Err(Error::MalformedFrame));
    assert_eq!(outcomes[1], Err(Error::UnresolvedIndex));
    assert_eq!(outcomes[2], Ok((1, vec![5, 0, 0, 0, 0])));
}

#[test]
fn rzcobs_decoder_waits_for_the_delimiter() {
    let table = hello_table(Encoding::Rzcobs);
    let mut decoder = StreamDecoder::new(&table, "4").unwrap();
    assert_eq!(summary(&decoder.received(&[0x00, 0x2a])), vec![]);
    assert_eq!(summary(&decoder.received(&[])), vec![]);
    assert_eq!(summary(&decoder.received(&[0x7b])), vec![]);
    assert_eq!(
        summary(&decoder.received(&[0x00, 0x01, 0x07])),
        vec![Ok((0, vec![42, 0, 0, 0, 0]))]
    );
    assert_eq!(
        summary(&decoder.received(&[0x09, 0x6a, 0x00, 0x00, 0x2a, 0x7b, 0x00, 0x01])),
        vec![Ok((1, vec![7, 0, 9, 0, 0])), Ok((0, vec![42, 0, 0, 0, 0]))]
    );
    assert_eq!(summary(&decoder.received(&[0x7e, 0x00])), vec![Ok((1, vec![0, 0, 0, 0, 0]))]);
}
