//! The critical section that serialises log frames.
//!
//! At most one encoding session is active at any time. Entering the section while it is
//! held is a programming error that is reported at once; nothing ever waits. Where the
//! logger is built to mask interrupts, they are off from `acquire` to `release`, so a plain
//! flag is enough to record the holder.

use vstd::prelude::*;
use crate::encoding::Encoding;
use crate::error::Error;
use crate::frame::{FrameEncoder, FrameEncoderView, at_most_one_delimiter, delimited, zero_free};

verus! {

/// `x86_64::instructions::interrupts::are_enabled`: reads the interrupt flag of the
/// processor. The answer depends on the machine; nothing is claimed of it.
#[verifier::external_body]
fn interrupts_are_enabled() -> bool {
    x86_64::instructions::interrupts::are_enabled()
}

/// `x86_64::instructions::interrupts::disable`: masks interrupts. The instruction is
/// privileged, so a logger that masks interrupts belongs in kernel code.
#[verifier::external_body]
fn disable_interrupts() {
    x86_64::instructions::interrupts::disable()
}

/// `x86_64::instructions::interrupts::enable`: unmasks interrupts. Privileged as well.
#[verifier::external_body]
fn enable_interrupts() {
    x86_64::instructions::interrupts::enable()
}

/// The shared encoder together with the flag that guards it.
pub struct Logger {
    taken: bool,
    interrupts_active: bool,
    mask_interrupts: bool,
    encoder: FrameEncoder,
}

/// What a [`Logger`] holds.
pub ghost struct LoggerView {
    /// Whether a session holds the critical section.
    pub taken: bool,
    /// Whether interrupts were enabled when the section was last entered.
    pub interrupts_active: bool,
    /// Whether the logger masks interrupts while the section is held.
    pub mask_interrupts: bool,
    /// The frame encoder that the section guards.
    pub encoder: FrameEncoderView,
}

impl LoggerView {
    /// The flag is set exactly while a frame is open.
    pub open spec fn wf(self) -> bool {
        self.taken == self.encoder.in_frame
    }

    /// The logger after a session entered it, where `interrupts_enabled` was read before
    /// interrupts were masked.
    pub open spec fn entered(self, interrupts_enabled: bool) -> LoggerView {
        LoggerView {
            taken: true,
            interrupts_active: interrupts_enabled,
            mask_interrupts: self.mask_interrupts,
            encoder: self.encoder.started(),
        }
    }

    /// What an attempt to enter comes to: the section is taken if it was free, and the
    /// attempt is a `ReentrancyViolation` if it was held.
    pub open spec fn try_enter(self, interrupts_enabled: bool) -> Result<LoggerView, Error> {
        if self.taken {
            Err(Error::ReentrancyViolation)
        } else {
            Ok(self.entered(interrupts_enabled))
        }
    }

    /// What entering puts on the wire.
    pub open spec fn enter_emits(self) -> Seq<u8> {
        self.encoder.start_emits()
    }

    /// The logger after `bytes` were written in the session.
    pub open spec fn written(self, bytes: Seq<u8>) -> LoggerView {
        LoggerView {
            taken: self.taken,
            interrupts_active: self.interrupts_active,
            mask_interrupts: self.mask_interrupts,
            encoder: self.encoder.written(bytes),
        }
    }

    /// What writing `bytes` puts on the wire.
    pub open spec fn write_emits(self, bytes: Seq<u8>) -> Seq<u8> {
        self.encoder.write_emits(bytes)
    }

    /// The logger after the session left it.
    pub open spec fn left(self) -> LoggerView {
        LoggerView {
            taken: false,
            interrupts_active: self.interrupts_active,
            mask_interrupts: self.mask_interrupts,
            encoder: self.encoder.ended(),
        }
    }

    /// What leaving puts on the wire.
    pub open spec fn leave_emits(self) -> Seq<u8> {
        self.encoder.end_emits()
    }

    /// The logger after the writes `writes` of one session, one after the other.
    pub open spec fn written_all(self, writes: Seq<Seq<u8>>) -> LoggerView
        decreases writes.len(),
    {
        if writes.len() == 0 {
            self
        } else {
            self.written_all(writes.drop_last()).written(writes.last())
        }
    }

    /// The logger after one whole session: entered with the interrupt state
    /// `interrupts_enabled`, the writes `writes`, left.
    pub open spec fn session(self, interrupts_enabled: bool, writes: Seq<Seq<u8>>) -> LoggerView {
        self.entered(interrupts_enabled).written_all(writes).left()
    }

    /// The logger after the sessions `sessions`, each left before the next is entered.
    /// A session is given by the interrupt state read on entry and by its writes.
    pub open spec fn after_sessions(self, sessions: Seq<(bool, Seq<Seq<u8>>)>) -> LoggerView
        decreases sessions.len(),
    {
        if sessions.len() == 0 {
            self
        } else {
            self.after_sessions(sessions.drop_last()).session(
                sessions.last().0,
                sessions.last().1,
            )
        }
    }
}

impl View for Logger {
    type V = LoggerView;

    closed spec fn view(&self) -> LoggerView {
        LoggerView {
            taken: self.taken,
            interrupts_active: self.interrupts_active,
            mask_interrupts: self.mask_interrupts,
            encoder: self.encoder@,
        }
    }
}

impl Logger {
    /// A free logger for `encoding`. With `mask_interrupts`, `acquire` turns interrupts off
    /// and `release` turns them on again if they were on before.
    pub fn new(encoding: Encoding, mask_interrupts: bool) -> (logger: Self)
        ensures
            logger@.wf(),
            !logger@.taken,
            !logger@.interrupts_active,
            logger@.mask_interrupts == mask_interrupts,
            logger@.encoder.encoding == encoding,
    {
        Logger {
            taken: false,
            interrupts_active: false,
            mask_interrupts,
            encoder: FrameEncoder::new(encoding),
        }
    }

    /// Whether a session holds the critical section.
    pub fn is_taken(&self) -> (taken: bool)
        ensures
            taken == self@.taken,
    {
        self.taken
    }

    /// Whether interrupts were enabled when the section was last entered.
    pub fn interrupts_active(&self) -> (active: bool)
        ensures
            active == self@.interrupts_active,
    {
        self.interrupts_active
    }

    /// The test-and-set at the heart of `acquire`, for a caller that has read the interrupt
    /// state itself (and masked interrupts, where that is called for).
    ///
    /// Fails with `ReentrancyViolation`, and changes nothing, exactly when the section is
    /// held. Otherwise takes the section, records `interrupts_enabled` and starts a frame.
    pub fn enter(&mut self, interrupts_enabled: bool, sink: &mut Vec<u8>) -> (entered: Result<
        (),
        Error,
    >)
        requires
            old(self)@.wf(),
        ensures
            final(self)@.wf(),
            match old(self)@.try_enter(interrupts_enabled) {
                Ok(held) => {
                    &&& entered == Ok::<(), Error>(())
                    &&& final(self)@ == held
                    &&& final(sink)@ == old(sink)@ + old(self)@.enter_emits()
                    &&& at_most_one_delimiter(old(self)@.enter_emits())
                },
                Err(violation) => {
                    &&& entered == Err::<(), Error>(violation)
                    &&& final(self)@ == old(self)@
                    &&& final(sink)@ == old(sink)@
                },
            },
    {
        if self.taken {
            return Err(Error::ReentrancyViolation);
        }
        // no compare-and-swap is needed: nothing can interleave with this session
        self.taken = true;
        self.interrupts_active = interrupts_enabled;
        self.encoder.start_frame(sink);
        Ok(())
    }

    /// Enters the critical section and starts a frame.
    ///
    /// Where the logger masks interrupts, reads whether they are enabled and turns them
    /// off before it touches the flag; otherwise it takes them to be off. Whatever was
    /// read, the call fails with `ReentrancyViolation` exactly when the section is held.
    pub fn acquire(&mut self, sink: &mut Vec<u8>) -> (acquired: Result<(), Error>)
        requires
            old(self)@.wf(),
        ensures
            final(self)@.wf(),
            match old(self)@.try_enter(final(self)@.interrupts_active) {
                Ok(held) => {
                    &&& acquired == Ok::<(), Error>(())
                    &&& final(self)@ == held
                    &&& final(sink)@ == old(sink)@ + old(self)@.enter_emits()
                    &&& at_most_one_delimiter(old(self)@.enter_emits())
                    &&& !old(self)@.mask_interrupts ==> !final(self)@.interrupts_active
                },
                Err(violation) => {
                    &&& acquired == Err::<(), Error>(violation)
                    &&& final(self)@ == old(self)@
                    &&& final(sink)@ == old(sink)@
                },
            },
    {
        let interrupts_enabled = if self.mask_interrupts {
            let value = interrupts_are_enabled();
            disable_interrupts();
            value
        } else {
            false
        };
        self.enter(interrupts_enabled, sink)
    }

    /// Forwards `bytes` to the open frame.
    pub fn write(&mut self, bytes: &[u8], sink: &mut Vec<u8>)
        requires
            old(self)@.wf(),
            old(self)@.taken,
        ensures
            final(self)@ == old(self)@.written(bytes@),
            final(self)@.wf(),
            final(sink)@ == old(sink)@ + old(self)@.write_emits(bytes@),
            old(self)@.encoder.encoding is Rzcobs ==> zero_free(old(self)@.write_emits(bytes@)),
    {
        self.encoder.write(bytes, sink);
    }

    /// Does nothing: a frame is complete in itself and nothing is buffered beyond it.
    pub fn flush(&self) {
    }

    /// The mirror of `enter`: ends the frame and clears the flag. Returns whether
    /// interrupts are to be enabled again, which is so exactly when they were enabled on
    /// entry.
    pub fn leave(&mut self, sink: &mut Vec<u8>) -> (enable: bool)
        requires
            old(self)@.wf(),
            old(self)@.taken,
        ensures
            final(self)@ == old(self)@.left(),
            final(self)@.wf(),
            !final(self)@.taken,
            final(sink)@ == old(sink)@ + old(self)@.leave_emits(),
            enable == old(self)@.interrupts_active,
            old(self)@.encoder.encoding is Rzcobs ==> delimited(old(self)@.leave_emits()),
    {
        self.encoder.end_frame(sink);
        self.taken = false;
        self.interrupts_active
    }

    /// Ends the frame, leaves the critical section and, only if interrupts were enabled
    /// when it was entered, enables them again. Returns whether it did.
    pub fn release(&mut self, sink: &mut Vec<u8>) -> (enabled: bool)
        requires
            old(self)@.wf(),
            old(self)@.taken,
        ensures
            final(self)@ == old(self)@.left(),
            final(self)@.wf(),
            !final(self)@.taken,
            final(sink)@ == old(sink)@ + old(self)@.leave_emits(),
            enabled == old(self)@.interrupts_active,
            old(self)@.encoder.encoding is Rzcobs ==> delimited(old(self)@.leave_emits()),
    {
        let enable = self.leave(sink);
        if enable {
            enable_interrupts();
        }
        enable
    }
}

/// Writing changes neither the flag nor the recorded interrupt state.
pub proof fn lemma_writes_keep_the_flag(logger: LoggerView, writes: Seq<Seq<u8>>)
    ensures
        logger.written_all(writes).taken == logger.taken,
        logger.written_all(writes).interrupts_active == logger.interrupts_active,
        logger.written_all(writes).encoder.in_frame == logger.encoder.in_frame,
    decreases writes.len(),
{
    if writes.len() > 0 {
        lemma_writes_keep_the_flag(logger, writes.drop_last());
    }
}

/// However many sessions run one after the other, each released before the next is
/// acquired: if the flag is clear before the first, it is clear again after the last, and
/// every acquire on the way finds the section free.
pub proof fn lemma_sequential_sessions_leave_free(
    logger: LoggerView,
    sessions: Seq<(bool, Seq<Seq<u8>>)>,
)
    requires
        logger.wf(),
        !logger.taken,
    ensures
        logger.after_sessions(sessions).wf(),
        !logger.after_sessions(sessions).taken,
        forall|k: int|
            0 <= k < sessions.len() ==> (#[trigger] logger.after_sessions(
                sessions.take(k),
            )).try_enter(sessions[k].0) is Ok,
    decreases sessions.len(),
{
    if sessions.len() > 0 {
        let before = sessions.drop_last();
        lemma_sequential_sessions_leave_free(logger, before);
        lemma_writes_keep_the_flag(
            logger.after_sessions(before).entered(sessions.last().0),
            sessions.last().1,
        );
        assert forall|k: int| 0 <= k < sessions.len() implies (#[trigger] logger.after_sessions(
            sessions.take(k),
        )).try_enter(sessions[k].0) is Ok by {
            if k < before.len() {
                assert(sessions.take(k) == before.take(k));
                assert(sessions[k] == before[k]);
            } else {
                assert(sessions.take(k) == before);
            }
        }
    }
}

/// A second attempt to enter before the session has left is a `ReentrancyViolation`,
/// whatever the session has written meanwhile and whatever the interrupt state is. After
/// the session has left, the section can be entered again.
pub proof fn lemma_reentry_is_refused(
    logger: LoggerView,
    first: bool,
    writes: Seq<Seq<u8>>,
    second: bool,
)
    requires
        !logger.taken,
    ensures
        logger.try_enter(first) == Ok::<LoggerView, Error>(logger.entered(first)),
        logger.entered(first).written_all(writes).try_enter(second) == Err::<LoggerView, Error>(
            Error::ReentrancyViolation,
        ),
        logger.session(first, writes).try_enter(second) is Ok,
{
    lemma_writes_keep_the_flag(logger.entered(first), writes);
}

} // verus!
