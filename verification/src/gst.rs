//! Between the conversation and the loudspeakers.

use byte_slice_cast::AsSliceOf;
use vstd::prelude::*;

verus! {

/// How many users can be played at the same time.
pub const SOURCES: usize = 16;

/// The samples of a second of sound.
pub const RATE: i32 = 16000;

/// The channels of the sound.
pub const CHANNELS: i32 = 1;

/// What the recording pipeline is told.
#[derive(Clone, Copy, Debug, PartialEq, Eq, Structural)]
pub enum Flow {
    /// Sound flows.
    Going,
    /// There is no more.
    Eos,
    /// Something went wrong.
    Failed,
}

/// What is recorded, and what the pipeline is told about it.
pub struct Recorded {
    pub flow: Flow,
    pub bytes: Option<Vec<u8>>,
}

/// Calls `byte_slice_cast::AsSliceOf::as_slice_of` for bytes.
///
/// Bytes are always in place and complete as bytes, so they come back as they were.
#[verifier::external_body]
fn as_slice_of_bytes(bytes: &[u8]) -> (r: Option<&[u8]>)
    ensures
        r is Some,
        r->Some_0@ == bytes@,
{
    bytes.as_slice_of::<u8>().ok()
}

/// Takes what the pipeline recorded: its bytes go on to the conversation. The pipeline ends where
/// nothing more comes from it.
pub fn new_samples(pulled: Option<&[u8]>) -> (r: Recorded)
    ensures
        match pulled {
            Some(bytes) => r.flow == Flow::Going && r.bytes is Some && r.bytes->Some_0@ == bytes@,
            None => r.flow == Flow::Eos && r.bytes is None,
        },
{
    match pulled {
        Some(map) => match as_slice_of_bytes(map) {
            Some(samples) => Recorded {
                flow: Flow::Going,
                bytes: Some(vstd::slice::slice_to_vec(samples)),
            },
            None => Recorded { flow: Flow::Failed, bytes: None },
        },
        None => Recorded { flow: Flow::Eos, bytes: None },
    }
}

/// A message of a pipeline.
#[derive(Clone, Copy, Debug, PartialEq, Eq, Structural)]
pub enum BusMessage {
    Eos,
    Error,
    Other,
}

/// What to do with a pipeline.
#[derive(Clone, Copy, Debug, PartialEq, Eq, Structural)]
pub enum BusStep {
    /// Wait for the next message.
    Wait,
    /// Stop it.
    Stop,
    /// Stop it and tell the failure.
    Fail,
}

/// What to do with a pipeline that sends `message`.
pub fn bus_step(message: BusMessage) -> (r: BusStep)
    ensures
        r == match message {
            BusMessage::Eos => BusStep::Stop,
            BusMessage::Error => BusStep::Fail,
            BusMessage::Other => BusStep::Wait,
        },
{
    match message {
        BusMessage::Eos => BusStep::Stop,
        BusMessage::Error => BusStep::Fail,
        BusMessage::Other => BusStep::Wait,
    }
}

/// The source that plays the user `session`. A negative one is played nowhere.
pub fn src_rx(session: i32) -> (r: Option<usize>)
    requires
        session < SOURCES,
    ensures
        r == if session >= 0 {
            Some(session as usize)
        } else {
            None
        },
        r matches Some(i) ==> i < SOURCES,
{
    if session >= 0 {
        Some(session as usize)
    } else {
        None
    }
}

/// What to do with a source that was handed sound.
#[derive(Clone, Copy, Debug, PartialEq, Eq, Structural)]
pub enum SourceStep {
    /// Go on.
    Play,
    /// End it, and play no more.
    End,
}

/// What to do with a source that answered `flow` when it was handed sound.
pub fn src_pushed(flow: Flow) -> (r: SourceStep)
    ensures
        r == if flow == Flow::Going {
            SourceStep::Play
        } else {
            SourceStep::End
        },
{
    match flow {
        Flow::Going => SourceStep::Play,
        Flow::Eos => SourceStep::End,
        Flow::Failed => SourceStep::End,
    }
}

/// What is recorded goes on byte for byte, and the pipeline ends exactly where nothing comes.
pub proof fn recordings_go_on(pulled: Option<&[u8]>, r: Recorded)
    requires
        call_ensures(new_samples, (pulled,), r),
    ensures
        r.flow == Flow::Eos <==> pulled is None,
        r.flow == Flow::Going <==> pulled is Some,
        r.bytes is Some <==> pulled is Some,
        r.bytes is Some ==> r.bytes->Some_0@ == pulled->Some_0@,
{
}

/// Every user that is played has a source of its own, and a negative one is not played.
pub proof fn users_have_their_sources(a: i32, b: i32, ra: Option<usize>, rb: Option<usize>)
    requires
        a < 16,
        b < 16,
        call_ensures(src_rx, (a,), ra),
        call_ensures(src_rx, (b,), rb),
    ensures
        ra is Some <==> a >= 0,
        ra is Some ==> ra->Some_0 == a,
        ra is Some && ra == rb ==> a == b,
{
}

/// A source is ended exactly where it does not take its sound, and a pipeline is stopped by its end
/// or a failure and by nothing else.
pub proof fn failures_end_the_sound(flow: Flow, step: SourceStep, message: BusMessage, bus: BusStep)
    requires
        call_ensures(src_pushed, (flow,), step),
        call_ensures(bus_step, (message,), bus),
    ensures
        step == SourceStep::End <==> flow != Flow::Going,
        bus == BusStep::Wait <==> message == BusMessage::Other,
        bus == BusStep::Stop <==> message == BusMessage::Eos,
        bus == BusStep::Fail <==> message == BusMessage::Error,
{
}

} // verus!
