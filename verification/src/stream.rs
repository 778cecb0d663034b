//! The host side of the wire: from received bytes to resolved frames.
//!
//! A frame starts with the index of its format string, two bytes in little-endian order;
//! the rest are the bytes of its arguments, which are handed on as they are. How the
//! stream is cut into frames depends on whether the encoding can recover. A `Raw` stream
//! is cut by the transport, one frame per read, and the first frame that does not resolve
//! ends the session. An `Rzcobs` stream is cut at its zero bytes; a frame that is
//! malformed or does not resolve is reported and dropped, and the next one is decoded.

use vstd::prelude::*;
use crate::entry::{TableEntry, TableEntryView};
use crate::error::Error;
use crate::frame::{FrameEncoderView, append_bytes, at_most_one_delimiter, delimited, zero_free};
use crate::rzcobs::{unstuff, unstuffed};
use crate::table::{Table, TableView};
use crate::version::{check_version, supported_version};

verus! {

/// Where the bytes begin that follow the last delimiter of `stream`: the frame that is
/// not complete yet.
pub open spec fn pending_start(stream: Seq<u8>) -> int
    decreases stream.len(),
{
    if stream.len() == 0 {
        0
    } else if stream.last() == 0 {
        stream.len() as int
    } else {
        pending_start(stream.drop_last())
    }
}

/// The complete frames of a delimited stream, in order and without their delimiters. A
/// delimiter that follows another one directly ends no frame.
pub open spec fn chunks(stream: Seq<u8>) -> Seq<Seq<u8>>
    decreases stream.len(),
{
    if stream.len() == 0 {
        Seq::empty()
    } else if stream.last() != 0 {
        chunks(stream.drop_last())
    } else {
        let start = pending_start(stream.drop_last());
        if start == stream.len() - 1 {
            chunks(stream.drop_last())
        } else {
            chunks(stream.drop_last()).push(stream.subrange(start, stream.len() - 1))
        }
    }
}

/// The bytes of each chunk.
pub open spec fn chunk_views(chunks: Seq<Vec<u8>>) -> Seq<Seq<u8>> {
    chunks.map_values(|chunk: Vec<u8>| chunk@)
}

/// Cuts a delimited stream into its complete frames. Returns them without their
/// delimiters, and the place where the incomplete rest of the stream begins.
pub fn split_frames(stream: &[u8]) -> (split: (Vec<Vec<u8>>, usize))
    ensures
        chunk_views(split.0@) == chunks(stream@),
        split.1 == pending_start(stream@),
        split.1 <= stream@.len(),
{
    let mut frames: Vec<Vec<u8>> = Vec::new();
    let mut start: usize = 0;
    let mut i: usize = 0;
    let n = stream.len();
    assert(stream@.take(0) == Seq::<u8>::empty());
    assert(chunk_views(frames@) == chunks(stream@.take(0)));
    while i < n
        invariant
            n == stream@.len(),
            i <= n,
            start <= i,
            start == pending_start(stream@.take(i as int)),
            chunk_views(frames@) == chunks(stream@.take(i as int)),
        decreases n - i,
    {
        let ghost seen = stream@.take(i + 1);
        assert(seen.drop_last() == stream@.take(i as int));
        assert(seen.last() == stream@[i as int]);
        if stream[i] == 0 {
            if start < i {
                let mut chunk: Vec<u8> = Vec::new();
                append_bytes(&mut chunk, vstd::slice::slice_subrange(stream, start, i));
                assert(chunk@ == seen.subrange(start as int, i as int));
                let ghost before = frames@;
                frames.push(chunk);
                assert(chunk_views(frames@) == chunk_views(before).push(chunk@));
            }
            start = i + 1;
        }
        i = i + 1;
    }
    assert(stream@.take(n as int) == stream@);
    (frames, start)
}

/// The index at the head of a frame of two bytes or more.
pub open spec fn frame_index(frame: Seq<u8>) -> usize {
    (frame[0] + 256 * frame[1]) as usize
}

/// The two bytes that put `index` at the head of a frame.
pub open spec fn index_bytes(index: u16) -> Seq<u8> {
    seq![(index % 256) as u8, (index / 256) as u8]
}

/// A frame whose index the table has resolved.
#[derive(Debug)]
pub struct Frame<'t> {
    index: usize,
    entry: &'t TableEntry,
    args: Vec<u8>,
}

/// What a [`Frame`] holds.
pub ghost struct FrameView {
    /// The index at the head of the frame.
    pub index: usize,
    /// The entry that the table holds under the index.
    pub entry: TableEntryView,
    /// The bytes after the index, as they were received.
    pub args: Seq<u8>,
}

impl<'t> View for Frame<'t> {
    type V = FrameView;

    closed spec fn view(&self) -> FrameView {
        FrameView { index: self.index, entry: self.entry@, args: self.args@ }
    }
}

impl<'t> Frame<'t> {
    /// The index at the head of the frame.
    pub fn index(&self) -> (index: usize)
        ensures
            index == self@.index,
    {
        self.index
    }

    /// The entry that the table holds under the index.
    pub fn entry(&self) -> (entry: &'t TableEntry)
        ensures
            entry@ == self@.entry,
    {
        self.entry
    }

    /// The bytes of the arguments, for the formatter.
    pub fn args(&self) -> (args: &[u8])
        ensures
            args@ == self@.args,
    {
        self.args.as_slice()
    }
}

/// What decoding one frame comes to: the resolved frame, `MalformedFrame` where the bytes
/// cannot hold an index, `UnresolvedIndex` where the table has no entry for it.
pub open spec fn resolved(table: TableView, frame: Seq<u8>) -> Result<FrameView, Error> {
    if frame.len() < 2 {
        Err(Error::MalformedFrame)
    } else if !table.entries.contains_key(frame_index(frame)) {
        Err(Error::UnresolvedIndex)
    } else {
        Ok(
            FrameView {
                index: frame_index(frame),
                entry: table.entries[frame_index(frame)],
                args: frame.skip(2),
            },
        )
    }
}

/// What decoding one stuffed chunk of a stream comes to.
pub open spec fn resolved_chunk(table: TableView, chunk: Seq<u8>) -> Result<FrameView, Error> {
    match unstuffed(chunk) {
        Some(frame) => resolved(table, frame),
        None => Err(Error::MalformedFrame),
    }
}

/// An outcome as contracts speak of it.
pub open spec fn outcome_view(outcome: Result<Frame<'_>, Error>) -> Result<FrameView, Error> {
    match outcome {
        Ok(frame) => Ok(frame@),
        Err(error) => Err(error),
    }
}

/// The outcomes as contracts speak of them.
pub open spec fn outcome_views(outcomes: Seq<Result<Frame<'_>, Error>>) -> Seq<
    Result<FrameView, Error>,
> {
    outcomes.map_values(|outcome: Result<Frame<'_>, Error>| outcome_view(outcome))
}

/// The two bytes that put `index` at the head of a frame.
pub fn encode_index(index: u16) -> (bytes: [u8; 2])
    ensures
        bytes@ == index_bytes(index),
{
    let bytes = [(index % 256) as u8, (index / 256) as u8];
    assert(bytes@ =~= index_bytes(index));
    bytes
}

/// Resolves the index at the head of `frame` and hands on the bytes that follow it.
pub fn decode_frame<'t>(table: &'t Table, frame: &[u8]) -> (outcome: Result<Frame<'t>, Error>)
    ensures
        outcome_view(outcome) == resolved(table@, frame@),
{
    if frame.len() < 2 {
        return Err(Error::MalformedFrame);
    }
    let low: usize = frame[0] as usize;
    let high: usize = frame[1] as usize;
    let index: usize = low + 256 * high;
    match table.lookup(index) {
        Some(entry) => {
            let mut args: Vec<u8> = Vec::new();
            append_bytes(&mut args, vstd::slice::slice_subrange(frame, 2, frame.len()));
            assert(args@ == frame@.skip(2));
            Ok(Frame { index, entry, args })
        },
        None => Err(Error::UnresolvedIndex),
    }
}

/// Undoes the byte stuffing of one chunk of a stream and resolves the frame.
pub fn decode_chunk<'t>(table: &'t Table, chunk: &[u8]) -> (outcome: Result<Frame<'t>, Error>)
    ensures
        outcome_view(outcome) == resolved_chunk(table@, chunk@),
{
    match unstuff(chunk) {
        Ok(frame) => decode_frame(table, frame.as_slice()),
        Err(error) => Err(error),
    }
}

/// A decoding session over one table.
#[derive(Debug)]
pub struct StreamDecoder<'t> {
    table: &'t Table,
    pending: Vec<u8>,
    aborted: bool,
}

/// What a [`StreamDecoder`] holds.
pub ghost struct StreamDecoderView {
    /// The table that frames are resolved against.
    pub table: TableView,
    /// The bytes received after the last delimiter: a frame that is not complete yet.
    pub pending: Seq<u8>,
    /// Whether the session has met an error that it cannot recover from.
    pub aborted: bool,
}

impl StreamDecoderView {
    /// The outcomes that receiving `data` adds, one for each frame.
    pub open spec fn outcomes(self, data: Seq<u8>) -> Seq<Result<FrameView, Error>> {
        if self.aborted {
            Seq::empty()
        } else if self.table.encoding.recovers() {
            chunks(self.pending + data).map_values(
                |chunk: Seq<u8>| resolved_chunk(self.table, chunk),
            )
        } else {
            seq![resolved(self.table, data)]
        }
    }

    /// The session after it has received `data`.
    pub open spec fn received(self, data: Seq<u8>) -> StreamDecoderView {
        if self.aborted {
            self
        } else if self.table.encoding.recovers() {
            StreamDecoderView {
                table: self.table,
                pending: (self.pending + data).skip(pending_start(self.pending + data)),
                aborted: false,
            }
        } else {
            StreamDecoderView {
                table: self.table,
                pending: self.pending,
                aborted: resolved(self.table, data) is Err,
            }
        }
    }
}

impl<'t> View for StreamDecoder<'t> {
    type V = StreamDecoderView;

    closed spec fn view(&self) -> StreamDecoderView {
        StreamDecoderView { table: self.table@, pending: self.pending@, aborted: self.aborted }
    }
}

impl<'t> StreamDecoder<'t> {
    /// Opens a session over `table`, which was generated for protocol version `version`.
    /// A table of a version that is not supported is refused as `UnsupportedVersion`.
    pub fn new(table: &'t Table, version: &str) -> (session: Result<StreamDecoder<'t>, Error>)
        ensures
            match session {
                Ok(decoder) => supported_version(version@) && decoder@ == (StreamDecoderView {
                    table: table@,
                    pending: Seq::empty(),
                    aborted: false,
                }),
                Err(error) => !supported_version(version@) && error == Error::UnsupportedVersion,
            },
    {
        match check_version(version) {
            Ok(()) => Ok(StreamDecoder { table, pending: Vec::new(), aborted: false }),
            Err(error) => Err(error),
        }
    }

    /// Whether the session has met an error that it cannot recover from. Nothing is
    /// decoded after that.
    pub fn is_aborted(&self) -> (aborted: bool)
        ensures
            aborted == self@.aborted,
    {
        self.aborted
    }

    /// Takes the bytes of one read from the transport and returns an outcome for each
    /// frame that they complete.
    ///
    /// Where the encoding recovers, `data` is the next piece of the byte stream, cut
    /// anywhere; each frame that a delimiter completes is decoded by itself, so an error
    /// costs that frame and no other. Where it does not, `data` is one whole frame, and
    /// an error ends the session.
    pub fn received(&mut self, data: &[u8]) -> (outcomes: Vec<Result<Frame<'t>, Error>>)
        ensures
            outcome_views(outcomes@) == old(self)@.outcomes(data@),
            final(self)@ == old(self)@.received(data@),
    {
        let mut outcomes: Vec<Result<Frame<'t>, Error>> = Vec::new();
        if self.aborted {
            assert(outcome_views(outcomes@) == Seq::<Result<FrameView, Error>>::empty());
            return outcomes;
        }
        let table: &'t Table = self.table;
        if table.encoding().can_recover() {
            append_bytes(&mut self.pending, data);
            let (frames, consumed) = split_frames(self.pending.as_slice());
            let ghost stream = self.pending@;
            let ghost expected = chunks(stream).map_values(
                |chunk: Seq<u8>| resolved_chunk(table@, chunk),
            );
            let n = frames.len();
            let mut i: usize = 0;
            assert(chunk_views(frames@).len() == n);
            while i < n
                invariant
                    n == frames@.len(),
                    i <= n,
                    chunk_views(frames@) == chunks(stream),
                    expected == chunks(stream).map_values(
                        |chunk: Seq<u8>| resolved_chunk(table@, chunk),
                    ),
                    outcomes@.len() == i,
                    forall|k: int| 0 <= k < i ==> outcome_view(outcomes@[k]) == expected[k],
                decreases n - i,
            {
                assert(chunk_views(frames@)[i as int] == frames@[i as int]@);
                let outcome = decode_chunk(table, frames[i].as_slice());
                outcomes.push(outcome);
                i = i + 1;
            }
            assert(outcome_views(outcomes@) == expected);
            let mut rest: Vec<u8> = Vec::new();
            append_bytes(
                &mut rest,
                vstd::slice::slice_subrange(self.pending.as_slice(), consumed, self.pending.len()),
            );
            assert(rest@ == stream.skip(consumed as int));
            self.pending = rest;
        } else {
            let outcome = decode_frame(table, data);
            if outcome.is_err() {
                self.aborted = true;
            }
            outcomes.push(outcome);
            assert(outcome_views(outcomes@) == seq![resolved(table@, data@)]);
        }
        outcomes
    }
}

/// A stream that is cut right after a delimiter, or before its first byte, falls into two
/// streams that are split each by itself.
pub proof fn lemma_chunks_append(head: Seq<u8>, tail: Seq<u8>)
    requires
        head.len() == 0 || head.last() == 0,
    ensures
        chunks(head + tail) == chunks(head) + chunks(tail),
        pending_start(head + tail) == head.len() + pending_start(tail),
    decreases tail.len(),
{
    if tail.len() == 0 {
        assert(head + tail == head);
        assert(chunks(head) + chunks(tail) == chunks(head));
    } else {
        let whole = head + tail;
        assert(whole.drop_last() == head + tail.drop_last());
        assert(whole.last() == tail.last());
        lemma_chunks_append(head, tail.drop_last());
        if tail.last() == 0 {
            let start = pending_start(tail.drop_last());
            lemma_pending_start_bounds(tail.drop_last());
            assert(whole.subrange(head.len() + start, whole.len() - 1) == tail.subrange(
                start,
                tail.len() - 1,
            ));
            if start != tail.len() - 1 {
                assert(chunks(head) + chunks(tail.drop_last()).push(
                    tail.subrange(start, tail.len() - 1),
                ) == (chunks(head) + chunks(tail.drop_last())).push(
                    tail.subrange(start, tail.len() - 1),
                ));
            }
        }
    }
}

/// The incomplete rest of a stream begins inside the stream, right after a delimiter
/// unless it begins the stream, and holds no delimiter.
pub proof fn lemma_pending_start_bounds(stream: Seq<u8>)
    ensures
        0 <= pending_start(stream) <= stream.len(),
        pending_start(stream) == 0 || stream[pending_start(stream) - 1] == 0,
        zero_free(stream.skip(pending_start(stream))),
        zero_free(stream) ==> pending_start(stream) == 0,
    decreases stream.len(),
{
    if stream.len() > 0 && stream.last() != 0 {
        lemma_pending_start_bounds(stream.drop_last());
        let start = pending_start(stream);
        assert forall|i: int| 0 <= i < stream.skip(start).len() implies stream.skip(start)[i]
            != 0 by {
            if i < stream.len() - 1 - start {
                assert(stream.drop_last().skip(start)[i] == stream.skip(start)[i]);
            }
        }
        if zero_free(stream) {
            assert forall|i: int| 0 <= i < stream.drop_last().len() implies stream.drop_last()[i]
                != 0 by {
                assert(stream.drop_last()[i] == stream[i]);
            }
        }
    } else if stream.len() > 0 {
        assert(!zero_free(stream)) by {
            assert(stream[stream.len() - 1] == 0);
        }
    }
}

/// A stream without a delimiter holds no complete frame, and a frame that is followed by
/// its delimiter is found as it is. An empty one is passed over.
pub proof fn lemma_chunks_of_frame(frame: Seq<u8>)
    requires
        zero_free(frame),
    ensures
        chunks(frame) == Seq::<Seq<u8>>::empty(),
        chunks(frame.push(0)) == if frame.len() == 0 {
            Seq::<Seq<u8>>::empty()
        } else {
            seq![frame]
        },
        pending_start(frame.push(0)) == frame.len() + 1,
    decreases frame.len(),
{
    lemma_pending_start_bounds(frame);
    if frame.len() > 0 {
        assert(zero_free(frame.drop_last())) by {
            assert forall|i: int| 0 <= i < frame.drop_last().len() implies frame.drop_last()[i]
                != 0 by {
                assert(frame.drop_last()[i] == frame[i]);
            }
        }
        lemma_chunks_of_frame(frame.drop_last());
        assert(frame.last() != 0);
    }
    let delimited = frame.push(0);
    assert(delimited.drop_last() == frame);
    assert(delimited.subrange(0, delimited.len() - 1) == frame);
    if frame.len() > 0 {
        assert(Seq::<Seq<u8>>::empty().push(frame) == seq![frame]);
    }
}

/// Every frame that the split finds is non-empty and holds no delimiter.
pub proof fn lemma_chunks_are_zero_free(stream: Seq<u8>, i: int)
    requires
        0 <= i < chunks(stream).len(),
    ensures
        chunks(stream)[i].len() > 0,
        zero_free(chunks(stream)[i]),
    decreases stream.len(),
{
    if stream.len() > 0 {
        let before = stream.drop_last();
        if stream.last() != 0 {
            lemma_chunks_are_zero_free(before, i);
        } else {
            let start = pending_start(before);
            lemma_pending_start_bounds(before);
            if i < chunks(before).len() {
                lemma_chunks_are_zero_free(before, i);
            } else {
                assert(stream.subrange(start, stream.len() - 1) == before.skip(start));
            }
        }
    }
}

/// Resynchronisation: whatever bytes came before, once a delimiter has passed, a frame
/// that arrives whole with its delimiter is found, and what came before is split as if
/// the frame had never followed.
pub proof fn lemma_resynchronises(damaged: Seq<u8>, frame: Seq<u8>)
    requires
        zero_free(frame),
        frame.len() > 0,
    ensures
        chunks(damaged.push(0) + frame.push(0)) == chunks(damaged.push(0)).push(frame),
        pending_start(damaged.push(0) + frame.push(0)) == damaged.len() + frame.len() + 2,
{
    lemma_chunks_append(damaged.push(0), frame.push(0));
    lemma_chunks_of_frame(frame);
    assert(chunks(damaged.push(0)) + seq![frame] == chunks(damaged.push(0)).push(frame));
}

/// Self-delimiting: what the start, the writes and the end of one `Rzcobs` session put on
/// the wire is found by the split as one frame, the stuffed bytes without the delimiters,
/// and nothing of it is left pending. A session that put no stuffed byte on the wire is
/// passed over.
pub proof fn lemma_emitted_frame_is_one_chunk(start: Seq<u8>, body: Seq<u8>, end: Seq<u8>)
    requires
        at_most_one_delimiter(start),
        zero_free(body),
        delimited(end),
    ensures
        chunks(start + body + end) == if (body + end.drop_last()).len() == 0 {
            Seq::<Seq<u8>>::empty()
        } else {
            seq![body + end.drop_last()]
        },
        pending_start(start + body + end) == (start + body + end).len(),
{
    let stuffed = body + end.drop_last();
    assert(zero_free(stuffed)) by {
        assert forall|i: int| 0 <= i < stuffed.len() implies stuffed[i] != 0 by {
            if i >= body.len() {
                assert(stuffed[i] == end.drop_last()[i - body.len()]);
            }
        }
    }
    assert(body + end == stuffed.push(0)) by {
        assert(end == end.drop_last().push(0));
        assert(body + end.drop_last().push(0) == (body + end.drop_last()).push(0));
    }
    assert(start + body + end == start + (body + end));
    lemma_chunks_of_frame(stuffed);
    lemma_chunks_append(start, stuffed.push(0));
    if start.len() == 0 {
        assert(chunks(start) + chunks(stuffed.push(0)) == chunks(stuffed.push(0)));
    } else {
        assert(start == Seq::<u8>::empty().push(0));
        lemma_chunks_of_frame(Seq::<u8>::empty());
        assert(chunks(start) + chunks(stuffed.push(0)) == chunks(stuffed.push(0)));
    }
}

/// A recovering session may be fed its stream in pieces cut anywhere: the outcomes of the
/// pieces, one after the other, are the outcomes of the whole, and the session ends up in
/// the same state.
pub proof fn lemma_pieces_decode_as_the_whole(
    decoder: StreamDecoderView,
    first: Seq<u8>,
    second: Seq<u8>,
)
    requires
        decoder.table.encoding.recovers(),
        !decoder.aborted,
    ensures
        decoder.outcomes(first) + decoder.received(first).outcomes(second) == decoder.outcomes(
            first + second,
        ),
        decoder.received(first).received(second) == decoder.received(first + second),
{
    let stream = decoder.pending + first;
    let start = pending_start(stream);
    let whole = decoder.pending + (first + second);
    lemma_pending_start_bounds(stream);
    let done = stream.take(start);
    let rest = stream.skip(start);
    assert(stream == done + rest);
    assert(whole == done + (rest + second));
    assert(done.len() == 0 || done.last() == 0);
    lemma_chunks_append(done, rest);
    lemma_chunks_append(done, rest + second);
    lemma_chunks_of_frame(rest);
    assert(chunks(done) + chunks(rest) == chunks(done));
    let resolve = |chunk: Seq<u8>| resolved_chunk(decoder.table, chunk);
    assert((chunks(done) + chunks(rest + second)).map_values(resolve) == chunks(done).map_values(
        resolve,
    ) + chunks(rest + second).map_values(resolve));
    lemma_pending_start_bounds(rest + second);
    assert(pending_start(whole) == done.len() + pending_start(rest + second));
    assert((done + (rest + second)).skip(done.len() + pending_start(rest + second)) == (rest
        + second).skip(pending_start(rest + second)));
}

/// Resynchronisation of a session: whatever bytes `damaged` holds, once their delimiter
/// has passed, a frame that arrives whole is decoded as if nothing had come before it.
pub proof fn lemma_session_resynchronises(
    decoder: StreamDecoderView,
    damaged: Seq<u8>,
    frame: Seq<u8>,
)
    requires
        decoder.table.encoding.recovers(),
        !decoder.aborted,
        zero_free(frame),
        frame.len() > 0,
    ensures
        decoder.outcomes(damaged.push(0) + frame.push(0)) == decoder.outcomes(
            damaged.push(0),
        ).push(resolved_chunk(decoder.table, frame)),
        decoder.received(damaged.push(0) + frame.push(0)).pending == Seq::<u8>::empty(),
        !decoder.received(damaged.push(0) + frame.push(0)).aborted,
{
    let before = decoder.pending + damaged;
    assert(decoder.pending + (damaged.push(0) + frame.push(0)) == before.push(0) + frame.push(0));
    assert(decoder.pending + damaged.push(0) == before.push(0));
    lemma_resynchronises(before, frame);
    let resolve = |chunk: Seq<u8>| resolved_chunk(decoder.table, chunk);
    assert(chunks(before.push(0)).push(frame).map_values(resolve) == chunks(
        before.push(0),
    ).map_values(resolve).push(resolved_chunk(decoder.table, frame)));
    let whole = before.push(0) + frame.push(0);
    assert(whole.skip(whole.len() as int) == Seq::<u8>::empty());
}

/// A resolved frame hands on the bytes after the index unchanged: whenever the table
/// holds `index`, a frame made of the index and `args` resolves to the entry under
/// `index` and to `args`. Where the table does not hold `index`, it does not resolve.
pub proof fn lemma_resolves_what_was_written(table: TableView, index: u16, args: Seq<u8>)
    ensures
        frame_index(index_bytes(index) + args) == index as usize,
        resolved(table, index_bytes(index) + args) == if table.entries.contains_key(
            index as usize,
        ) {
            Ok::<FrameView, Error>(
                FrameView { index: index as usize, entry: table.entries[index as usize], args },
            )
        } else {
            Err::<FrameView, Error>(Error::UnresolvedIndex)
        },
{
    let frame = index_bytes(index) + args;
    assert(frame[0] == (index % 256) as u8);
    assert(frame[1] == (index / 256) as u8);
    assert(frame.skip(2) == args);
}

/// End to end under `Raw`: a session that writes an index held by the table and then its
/// arguments puts on the wire a frame that resolves to that entry and those arguments.
pub proof fn lemma_raw_session_resolves(
    encoder: FrameEncoderView,
    table: TableView,
    index: u16,
    args: Seq<u8>,
)
    requires
        encoder.encoding is Raw,
        table.entries.contains_key(index as usize),
    ensures
        resolved(table, encoder.frame_emits(seq![index_bytes(index), args])) == Ok::<
            FrameView,
            Error,
        >(FrameView { index: index as usize, entry: table.entries[index as usize], args }),
{
    let writes = seq![index_bytes(index), args];
    crate::frame::lemma_raw_frame_is_identity(encoder, writes);
    writes.lemma_flatten_and_flatten_alt_are_equivalent();
    reveal_with_fuel(Seq::flatten_alt, 3);
    assert(writes.drop_last() == seq![index_bytes(index)]);
    assert(writes.drop_last().drop_last() == Seq::<Seq<u8>>::empty());
    assert(writes.flatten_alt() == index_bytes(index) + args);
    lemma_resolves_what_was_written(table, index, args);
}

} // verus!
