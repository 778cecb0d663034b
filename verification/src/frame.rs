//! The frame encoder: one logical frame per start/end cycle, put on the wire in the chosen
//! encoding.
//!
//! A `Raw` frame goes out as it is written. The byte stuffing of `Rzcobs` is the work of
//! `defmt::Encoder`: what it emits is named here, not computed, together with the two facts
//! a decoder relies on, that no byte inside a frame is zero and that a zero ends every frame.

use vstd::prelude::*;
use crate::encoding::Encoding;

verus! {

/// The streaming encoder of `defmt`, built with its default (rzCOBS) encoding.
#[verifier::external_type_specification]
#[verifier::external_body]
pub struct ExEncoder(defmt::Encoder);

/// What a `defmt::Encoder` holds between two calls, as a number: whether it has begun its
/// first frame, and how far it is into the group of bytes it is stuffing.
pub uninterp spec fn encoder_state(encoder: defmt::Encoder) -> int;

/// The bytes that `defmt::Encoder::start_frame` emits in a given state, and the state it
/// leaves.
pub uninterp spec fn rzcobs_start(state: int) -> (Seq<u8>, int);

/// The bytes that `defmt::Encoder::write` emits for `data` in a given state, and the state
/// it leaves.
pub uninterp spec fn rzcobs_write(state: int, data: Seq<u8>) -> (Seq<u8>, int);

/// The bytes that `defmt::Encoder::end_frame` emits in a given state, and the state it
/// leaves.
pub uninterp spec fn rzcobs_end(state: int) -> (Seq<u8>, int);

/// No byte of `bytes` is the frame delimiter.
pub open spec fn zero_free(bytes: Seq<u8>) -> bool {
    forall|i: int| 0 <= i < bytes.len() ==> bytes[i] != 0
}

/// `bytes` is nothing, or one frame delimiter.
pub open spec fn at_most_one_delimiter(bytes: Seq<u8>) -> bool {
    bytes.len() == 0 || (bytes.len() == 1 && bytes[0] == 0)
}

/// `bytes` is zero-free but for its last byte, which is the frame delimiter.
pub open spec fn delimited(bytes: Seq<u8>) -> bool {
    bytes.len() >= 1 && bytes.last() == 0 && zero_free(bytes.drop_last())
}

/// Appends `bytes` to `sink`.
pub fn append_bytes(sink: &mut Vec<u8>, bytes: &[u8])
    ensures
        final(sink)@ == old(sink)@ + bytes@,
{
    let n = bytes.len();
    let mut i: usize = 0;
    while i < n
        invariant
            n == bytes@.len(),
            i <= n,
            sink@ == old(sink)@ + bytes@.take(i as int),
        decreases n - i,
    {
        sink.push(bytes[i]);
        i = i + 1;
        assert(bytes@.take(i as int) == bytes@.take(i - 1).push(bytes@[i - 1]));
    }
    assert(bytes@.take(n as int) == bytes@);
}

/// `defmt::Encoder::new`: a fresh encoder. Nothing is claimed of it.
#[verifier::external_body]
fn new_encoder() -> defmt::Encoder {
    defmt::Encoder::new()
}

/// `defmt::Encoder::start_frame`, with what it emits collected. The encoder emits one
/// delimiter before its very first frame and nothing before the later ones.
#[verifier::external_body]
fn encoder_start_frame(encoder: &mut defmt::Encoder) -> (emitted: Vec<u8>)
    ensures
        (emitted@, encoder_state(*final(encoder))) == rzcobs_start(encoder_state(*old(encoder))),
        at_most_one_delimiter(emitted@),
{
    let mut emitted = Vec::new();
    encoder.start_frame(|bytes: &[u8]| append_bytes(&mut emitted, bytes));
    emitted
}

/// `defmt::Encoder::write`, with what it emits collected. Every byte the encoder emits
/// here is a data byte other than zero or a group header, and no header is zero.
#[verifier::external_body]
fn encoder_write(encoder: &mut defmt::Encoder, data: &[u8]) -> (emitted: Vec<u8>)
    ensures
        (emitted@, encoder_state(*final(encoder))) == rzcobs_write(
            encoder_state(*old(encoder)),
            data@,
        ),
        zero_free(emitted@),
{
    let mut emitted = Vec::new();
    encoder.write(data, |bytes: &[u8]| append_bytes(&mut emitted, bytes));
    emitted
}

/// `defmt::Encoder::end_frame`, with what it emits collected. The encoder closes the open
/// group with at most one header, which is not zero, and then emits the delimiter.
#[verifier::external_body]
fn encoder_end_frame(encoder: &mut defmt::Encoder) -> (emitted: Vec<u8>)
    ensures
        (emitted@, encoder_state(*final(encoder))) == rzcobs_end(encoder_state(*old(encoder))),
        delimited(emitted@),
{
    let mut emitted = Vec::new();
    encoder.end_frame(|bytes: &[u8]| append_bytes(&mut emitted, bytes));
    emitted
}

/// Turns the writes between a start and an end into one frame on the wire.
pub struct FrameEncoder {
    encoding: Encoding,
    in_frame: bool,
    inner: defmt::Encoder,
}

/// What a [`FrameEncoder`] holds.
pub ghost struct FrameEncoderView {
    /// The transform applied to every frame.
    pub encoding: Encoding,
    /// Whether a frame has been started and not yet ended.
    pub in_frame: bool,
    /// The state of the byte stuffing. `Raw` never touches it.
    pub state: int,
}

impl FrameEncoderView {
    /// What `start_frame` pushes to the sink.
    pub open spec fn start_emits(self) -> Seq<u8> {
        match self.encoding {
            Encoding::Raw => Seq::empty(),
            Encoding::Rzcobs => rzcobs_start(self.state).0,
        }
    }

    /// The encoder after `start_frame`.
    pub open spec fn started(self) -> FrameEncoderView {
        FrameEncoderView {
            encoding: self.encoding,
            in_frame: true,
            state: match self.encoding {
                Encoding::Raw => self.state,
                Encoding::Rzcobs => rzcobs_start(self.state).1,
            },
        }
    }

    /// What `write` pushes to the sink for `data`.
    pub open spec fn write_emits(self, data: Seq<u8>) -> Seq<u8> {
        match self.encoding {
            Encoding::Raw => data,
            Encoding::Rzcobs => rzcobs_write(self.state, data).0,
        }
    }

    /// The encoder after `write` of `data`.
    pub open spec fn written(self, data: Seq<u8>) -> FrameEncoderView {
        FrameEncoderView {
            encoding: self.encoding,
            in_frame: self.in_frame,
            state: match self.encoding {
                Encoding::Raw => self.state,
                Encoding::Rzcobs => rzcobs_write(self.state, data).1,
            },
        }
    }

    /// What `end_frame` pushes to the sink.
    pub open spec fn end_emits(self) -> Seq<u8> {
        match self.encoding {
            Encoding::Raw => Seq::empty(),
            Encoding::Rzcobs => rzcobs_end(self.state).0,
        }
    }

    /// The encoder after `end_frame`.
    pub open spec fn ended(self) -> FrameEncoderView {
        FrameEncoderView {
            encoding: self.encoding,
            in_frame: false,
            state: match self.encoding {
                Encoding::Raw => self.state,
                Encoding::Rzcobs => rzcobs_end(self.state).1,
            },
        }
    }
}

impl FrameEncoderView {
    /// The encoder after the writes `writes`, one after the other.
    pub open spec fn written_all(self, writes: Seq<Seq<u8>>) -> FrameEncoderView
        decreases writes.len(),
    {
        if writes.len() == 0 {
            self
        } else {
            self.written_all(writes.drop_last()).written(writes.last())
        }
    }

    /// What the writes `writes` push to the sink, in call order.
    pub open spec fn writes_emit(self, writes: Seq<Seq<u8>>) -> Seq<u8>
        decreases writes.len(),
    {
        if writes.len() == 0 {
            Seq::empty()
        } else {
            self.writes_emit(writes.drop_last()) + self.written_all(
                writes.drop_last(),
            ).write_emits(writes.last())
        }
    }

    /// Everything that one frame pushes to the sink: the start, the writes, the end.
    pub open spec fn frame_emits(self, writes: Seq<Seq<u8>>) -> Seq<u8> {
        self.start_emits() + self.started().writes_emit(writes) + self.started().written_all(
            writes,
        ).end_emits()
    }
}

impl View for FrameEncoder {
    type V = FrameEncoderView;

    closed spec fn view(&self) -> FrameEncoderView {
        FrameEncoderView {
            encoding: self.encoding,
            in_frame: self.in_frame,
            state: encoder_state(self.inner),
        }
    }
}

impl FrameEncoder {
    /// An encoder for `encoding` with no frame open.
    pub fn new(encoding: Encoding) -> (encoder: Self)
        ensures
            encoder@.encoding == encoding,
            !encoder@.in_frame,
    {
        FrameEncoder { encoding, in_frame: false, inner: new_encoder() }
    }

    /// The transform applied to every frame.
    pub fn encoding(&self) -> (encoding: Encoding)
        ensures
            encoding == self@.encoding,
    {
        self.encoding
    }

    /// Whether a frame has been started and not yet ended.
    pub fn in_frame(&self) -> (in_frame: bool)
        ensures
            in_frame == self@.in_frame,
    {
        self.in_frame
    }

    /// Begins a frame. `Raw` puts nothing on the wire; `Rzcobs` at most one delimiter.
    pub fn start_frame(&mut self, sink: &mut Vec<u8>)
        requires
            !old(self)@.in_frame,
        ensures
            final(self)@ == old(self)@.started(),
            final(sink)@ == old(sink)@ + old(self)@.start_emits(),
            at_most_one_delimiter(old(self)@.start_emits()),
    {
        match self.encoding {
            Encoding::Raw => {
                assert(sink@ == old(sink)@ + Seq::<u8>::empty());
            },
            Encoding::Rzcobs => {
                let emitted = encoder_start_frame(&mut self.inner);
                append_bytes(sink, emitted.as_slice());
            },
        }
        self.in_frame = true;
    }

    /// Appends `bytes` to the open frame. `Raw` pushes them to the sink unchanged; `Rzcobs`
    /// pushes their stuffed form, which holds no zero byte.
    pub fn write(&mut self, bytes: &[u8], sink: &mut Vec<u8>)
        requires
            old(self)@.in_frame,
        ensures
            final(self)@ == old(self)@.written(bytes@),
            final(sink)@ == old(sink)@ + old(self)@.write_emits(bytes@),
            old(self)@.encoding is Rzcobs ==> zero_free(old(self)@.write_emits(bytes@)),
    {
        match self.encoding {
            Encoding::Raw => {
                append_bytes(sink, bytes);
            },
            Encoding::Rzcobs => {
                let emitted = encoder_write(&mut self.inner, bytes);
                append_bytes(sink, emitted.as_slice());
            },
        }
    }

    /// Ends the open frame. `Raw` puts nothing on the wire; `Rzcobs` closes its last group
    /// and pushes the delimiter.
    pub fn end_frame(&mut self, sink: &mut Vec<u8>)
        requires
            old(self)@.in_frame,
        ensures
            final(self)@ == old(self)@.ended(),
            final(sink)@ == old(sink)@ + old(self)@.end_emits(),
            old(self)@.encoding is Rzcobs ==> delimited(old(self)@.end_emits()),
    {
        match self.encoding {
            Encoding::Raw => {
                assert(sink@ == old(sink)@ + Seq::<u8>::empty());
            },
            Encoding::Rzcobs => {
                let emitted = encoder_end_frame(&mut self.inner);
                append_bytes(sink, emitted.as_slice());
            },
        }
        self.in_frame = false;
    }
}

/// Under `Raw` the writes of a session change nothing but the sink, and what they push is
/// their concatenation.
proof fn lemma_raw_writes(encoder: FrameEncoderView, writes: Seq<Seq<u8>>)
    requires
        encoder.encoding is Raw,
    ensures
        encoder.written_all(writes) == encoder,
        encoder.writes_emit(writes) == writes.flatten_alt(),
    decreases writes.len(),
{
    if writes.len() > 0 {
        lemma_raw_writes(encoder, writes.drop_last());
    }
}

/// The identity law of `Raw`: for any frame made of the writes `writes` between a start
/// and an end, the bytes that reach the sink are the writes joined in call order.
pub proof fn lemma_raw_frame_is_identity(encoder: FrameEncoderView, writes: Seq<Seq<u8>>)
    requires
        encoder.encoding is Raw,
    ensures
        encoder.frame_emits(writes) == writes.flatten(),
        encoder.started().written_all(writes).ended().state == encoder.state,
{
    lemma_raw_writes(encoder.started(), writes);
    writes.lemma_flatten_and_flatten_alt_are_equivalent();
    assert(encoder.frame_emits(writes) =~= writes.flatten_alt());
}

} // verus!
