//! One command and its chained response.
//!
//! A response may come in several frames. Each frame ends in a status word;
//! while that word says that more data is pending, the device is asked for
//! the rest, and the payloads of all frames together are the response. An
//! [`Exchange`] decides, frame by frame, what is sent next and when the
//! response is complete. It performs no transmission itself: the caller
//! sends [`Exchange::outgoing`] and hands the reply to [`Exchange::receive`],
//! again and again until a frame completes the response or fails.

use crate::error::Error;
use crate::status::{error_of, status_of, Status};
use vstd::prelude::*;
use vstd::slice::slice_subrange;

verus! {

/// The instruction that asks the device for the rest of a response.
pub const SEND_REMAINING: [u8; 4] = [0x00, 0xa5, 0x00, 0x00];

/// Where an exchange stands after a frame.
#[derive(Debug, Clone, Copy, PartialEq, Eq, Structural)]
pub enum Progress {
    /// The response is complete.
    Complete,
    /// The device holds more data: transmit again.
    Continue,
}

/// An [`Exchange`] by its contents.
pub struct ExchangeView {
    /// The command, as it is transmitted first.
    pub command: Seq<u8>,
    /// The payload gathered so far, status words stripped.
    pub response: Seq<u8>,
    /// Whether a frame has asked for a continuation.
    pub chained: bool,
}

/// A command with its length byte set: the fifth byte of the header holds
/// the size of the body that follows it, which is at most 255 for every
/// command of the protocol; of a longer body the byte keeps the low eight
/// bits. A buffer too short to have a header is left alone.
pub open spec fn with_length(command: Seq<u8>) -> Seq<u8> {
    if command.len() >= 5 {
        command.update(4, ((command.len() - 5) % 256) as u8)
    } else {
        command
    }
}

/// For a body of at most 255 bytes the length byte is the size of the body,
/// and nothing else of the command changes.
pub proof fn lemma_length_byte(command: Seq<u8>)
    requires
        5 <= command.len() <= 260,
    ensures
        with_length(command).len() == command.len(),
        with_length(command)[4] == command.len() - 5,
        forall|i: int| 0 <= i < command.len() && i != 4 ==> with_length(command)[i] == command[i],
{
}

/// The bytes of a frame in front of its status word.
pub open spec fn payload_of(frame: Seq<u8>) -> Seq<u8> {
    frame.subrange(0, frame.len() - 2)
}

/// The status word of a frame: its last two bytes, read from the end as a
/// little-endian number, so that a frame ending in `0x90 0x00` carries
/// `0x9000`.
pub open spec fn status_word(frame: Seq<u8>) -> u16 {
    (frame[frame.len() - 1] + 256 * frame[frame.len() - 2]) as u16
}

/// What a frame means for the exchange that receives it. A frame too short
/// for a status word is a failure, as is every status but success and
/// continuation.
pub open spec fn outcome(frame: Seq<u8>) -> Result<Progress, Error> {
    if frame.len() < 2 {
        Err(Error::InsufficientData)
    } else {
        match status_of(status_word(frame)) {
            Status::Success => Ok(Progress::Complete),
            Status::ContinuePending => Ok(Progress::Continue),
            status => Err(error_of(status).unwrap()),
        }
    }
}

/// The bytes that an exchange transmits next: the command itself until a
/// frame has asked for more, the continuation instruction after that.
pub open spec fn next_command(state: ExchangeView) -> Seq<u8> {
    if state.chained {
        SEND_REMAINING@
    } else {
        state.command
    }
}

/// The exchange after it has received `frame`. A frame that completes the
/// response or asks for more has its payload appended; a frame that fails
/// ends the exchange, and what was gathered before it is thrown away.
pub open spec fn received(state: ExchangeView, frame: Seq<u8>) -> ExchangeView {
    match outcome(frame) {
        Ok(Progress::Complete) => ExchangeView {
            response: state.response + payload_of(frame),
            ..state
        },
        Ok(Progress::Continue) => ExchangeView {
            response: state.response + payload_of(frame),
            chained: true,
            ..state
        },
        Err(_) => ExchangeView { response: Seq::empty(), ..state },
    }
}

/// The exchange after it has received `frames`, one after the other.
pub open spec fn received_all(state: ExchangeView, frames: Seq<Seq<u8>>) -> ExchangeView
    decreases frames.len(),
{
    if frames.len() == 0 {
        state
    } else {
        received(received_all(state, frames.drop_last()), frames.last())
    }
}

/// The payloads of a run of frames, in the order in which they came.
pub open spec fn payloads(frames: Seq<Seq<u8>>) -> Seq<u8>
    decreases frames.len(),
{
    if frames.len() == 0 {
        Seq::empty()
    } else {
        payloads(frames.drop_last()) + payload_of(frames.last())
    }
}

/// A frame that ends in a status word from `0x6100` to `0x61ff`.
pub open spec fn is_pending(frame: Seq<u8>) -> bool {
    frame.len() >= 2 && 0x6100 <= status_word(frame) <= 0x61ff
}

/// A frame that ends in the status word `0x9000`.
pub open spec fn is_final(frame: Seq<u8>) -> bool {
    frame.len() >= 2 && status_word(frame) == 0x9000
}

/// While every frame asks for more, the response grows by each payload and
/// the exchange goes on with the continuation instruction.
pub proof fn lemma_pending_frames(state: ExchangeView, frames: Seq<Seq<u8>>)
    requires
        forall|i: int| 0 <= i < frames.len() ==> is_pending(#[trigger] frames[i]),
    ensures
        received_all(state, frames).command == state.command,
        received_all(state, frames).response == state.response + payloads(frames),
        received_all(state, frames).chained == (state.chained || frames.len() > 0),
        frames.len() > 0 ==> next_command(received_all(state, frames)) == SEND_REMAINING@,
    decreases frames.len(),
{
    if frames.len() == 0 {
        assert(state.response + payloads(frames) =~= state.response);
    } else {
        let earlier = frames.drop_last();
        assert forall|i: int| 0 <= i < earlier.len() implies is_pending(#[trigger] earlier[i]) by {
            assert(earlier[i] == frames[i]);
        }
        lemma_pending_frames(state, earlier);
        assert(is_pending(frames[frames.len() - 1]));
        assert(state.response + payloads(earlier) + payload_of(frames.last()) =~= state.response
            + payloads(frames));
    }
}

/// Chained frames make one response: when every frame but the last ends in
/// a status word from `0x6100` to `0x61ff` and the last ends in `0x9000`,
/// the last frame completes the exchange, and the response is then the
/// payloads of all frames in the order in which they came.
pub proof fn lemma_chained_response(command: Seq<u8>, frames: Seq<Seq<u8>>)
    requires
        frames.len() > 0,
        forall|i: int| 0 <= i < frames.len() - 1 ==> is_pending(#[trigger] frames[i]),
        is_final(frames.last()),
    ensures
        ({
            let start = ExchangeView { command, response: Seq::empty(), chained: false };
            &&& forall|i: int|
                0 <= i < frames.len() - 1 ==> outcome(#[trigger] frames[i]) == Ok::<
                    Progress,
                    Error,
                >(Progress::Continue)
            &&& outcome(frames.last()) == Ok::<Progress, Error>(Progress::Complete)
            &&& received_all(start, frames).response == payloads(frames)
            &&& received_all(start, frames).command == command
        }),
{
    let start = ExchangeView { command, response: Seq::empty(), chained: false };
    let earlier = frames.drop_last();
    assert forall|i: int| 0 <= i < earlier.len() implies is_pending(#[trigger] earlier[i]) by {
        assert(earlier[i] == frames[i]);
    }
    lemma_pending_frames(start, earlier);
    assert(Seq::<u8>::empty() + payloads(earlier) + payload_of(frames.last()) =~= payloads(frames));
    assert forall|i: int| 0 <= i < frames.len() - 1 implies outcome(#[trigger] frames[i]) == Ok::<
        Progress,
        Error,
    >(Progress::Continue) by {
        assert(is_pending(frames[i]));
    }
}

/// The state of one exchange: the command, the payload received so far and
/// whether the device has been asked to continue. Command and payload share
/// one buffer, the caller's, which [`Exchange::finish`] hands back.
pub struct Exchange {
    buf: Vec<u8>,
    mid: usize,
    chained: bool,
}

impl View for Exchange {
    type V = ExchangeView;

    closed spec fn view(&self) -> ExchangeView {
        ExchangeView {
            command: self.buf@.subrange(0, self.mid as int),
            response: self.buf@.subrange(self.mid as int, self.buf@.len() as int),
            chained: self.chained,
        }
    }
}

impl Exchange {
    /// The command ends inside the buffer that it shares with the response.
    #[verifier::type_invariant]
    spec fn well_formed(self) -> bool {
        self.mid <= self.buf@.len()
    }

    /// Starts an exchange for the command assembled in `command`, whose
    /// length byte is filled in here.
    pub fn begin(command: Vec<u8>) -> (exchange: Exchange)
        ensures
            exchange@ == (ExchangeView {
                command: with_length(command@),
                response: Seq::empty(),
                chained: false,
            }),
    {
        let mut buf = command;
        let mid = buf.len();
        if mid >= 5 {
            buf[4] = ((mid - 5) % 256) as u8;
        }
        let exchange = Exchange { buf, mid, chained: false };
        assert(exchange@.command =~= with_length(command@));
        assert(exchange@.response =~= Seq::<u8>::empty());
        exchange
    }

    /// The bytes to transmit next.
    pub fn outgoing(&self) -> (bytes: &[u8])
        ensures
            bytes@ == next_command(self@),
    {
        proof {
            use_type_invariant(self);
        }
        if self.chained {
            &SEND_REMAINING
        } else {
            slice_subrange(self.buf.as_slice(), 0, self.mid)
        }
    }

    /// Takes the reply to what was last transmitted, and says whether the
    /// response is complete with it. A failure ends the exchange, and
    /// nothing of the response is kept.
    pub fn receive(&mut self, frame: &[u8]) -> (result: Result<Progress, Error>)
        ensures
            result == outcome(frame@),
            final(self)@ == received(old(self)@, frame@),
    {
        proof {
            use_type_invariant(&*self);
        }
        let result = Exchange::read(frame);
        // The buffer leaves the exchange while it changes, with the command
        // counted as empty for as long as it is away.
        let mid = self.mid;
        let mut buf: Vec<u8> = Vec::new();
        self.mid = 0;
        core::mem::swap(&mut self.buf, &mut buf);
        match result {
            Ok(_) => {
                buf.extend_from_slice(slice_subrange(frame, 0, frame.len() - 2));
                assert(buf@ =~= old(self).buf@ + payload_of(frame@));
            },
            Err(_) => {
                buf.truncate(mid);
            },
        }
        self.buf = buf;
        self.mid = mid;
        if let Ok(Progress::Continue) = result {
            self.chained = true;
        }
        assert(self@.command =~= old(self)@.command);
        assert(self@.response =~= received(old(self)@, frame@).response);
        result
    }

    /// What `frame` means for an exchange.
    pub fn read(frame: &[u8]) -> (result: Result<Progress, Error>)
        ensures
            result == outcome(frame@),
    {
        let len = frame.len();
        if len < 2 {
            return Err(Error::InsufficientData);
        }
        let code: u16 = (frame[len - 1] as u16) + 256 * (frame[len - 2] as u16);
        match Status::from_code(code) {
            Status::Success => Ok(Progress::Complete),
            Status::ContinuePending => Ok(Progress::Continue),
            status => Err(status.error().unwrap()),
        }
    }

    /// The response gathered so far.
    pub fn response(&self) -> (bytes: &[u8])
        ensures
            bytes@ == self@.response,
    {
        proof {
            use_type_invariant(self);
        }
        slice_subrange(self.buf.as_slice(), self.mid, self.buf.len())
    }

    /// Ends the exchange and gives the buffer back: the command, followed
    /// by the response. The number is where the response starts.
    pub fn finish(self) -> (parts: (Vec<u8>, usize))
        ensures
            parts.0@ == self@.command + self@.response,
            parts.1 == self@.command.len(),
    {
        proof {
            use_type_invariant(&self);
        }
        assert(self.buf@ =~= self@.command + self@.response);
        (self.buf, self.mid)
    }
}

} // verus!
