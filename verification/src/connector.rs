//! How a connection is opened and closed.

use vstd::prelude::*;

verus! {

/// What an attempt at a handshake led to: a stream, a failure, or a handshake that waits for the
/// other side.
pub enum Outcome<T, E, M> {
    Done(T),
    Failed(E),
    Interrupted(M),
}

/// What to do next with a handshake.
pub enum Begun<T, E, M> {
    /// It is done.
    Ready(T),
    /// It failed.
    Failed(E),
    /// It has to be resumed.
    Resume(M),
}

/// Whether a handshake is over, and how it ended.
pub enum Polled<T, E> {
    Ready(T),
    Failed(E),
    NotReady,
}

/// A handshake on its way. Once it has a result it is over.
pub struct MidHandshake<T, E, M> {
    pub inner: Option<Outcome<T, E, M>>,
}

impl<T, E, M> MidHandshake<T, E, M> {
    /// A handshake whose first attempt led to `outcome`.
    pub fn new(outcome: Outcome<T, E, M>) -> (r: Self)
        ensures
            r.inner == Some(outcome),
    {
        MidHandshake { inner: Some(outcome) }
    }

    /// Takes out what the last attempt led to.
    pub fn begin(&mut self) -> (r: Begun<T, E, M>)
        requires
            old(self).inner is Some,
        ensures
            final(self).inner is None,
            r == match old(self).inner->Some_0 {
                Outcome::Done(stream) => Begun::<T, E, M>::Ready(stream),
                Outcome::Failed(e) => Begun::<T, E, M>::Failed(e),
                Outcome::Interrupted(mid) => Begun::<T, E, M>::Resume(mid),
            },
    {
        match self.inner.take().unwrap() {
            Outcome::Done(stream) => Begun::Ready(stream),
            Outcome::Failed(e) => Begun::Failed(e),
            Outcome::Interrupted(mid) => Begun::Resume(mid),
        }
    }

    /// Takes what came of resuming the handshake. It stays on its way only where it was
    /// interrupted again.
    pub fn resumed(&mut self, outcome: Outcome<T, E, M>) -> (r: Polled<T, E>)
        requires
            old(self).inner is None,
        ensures
            r == match outcome {
                Outcome::Done(stream) => Polled::<T, E>::Ready(stream),
                Outcome::Failed(e) => Polled::<T, E>::Failed(e),
                Outcome::Interrupted(_) => Polled::<T, E>::NotReady,
            },
            final(self).inner == match outcome {
                Outcome::Interrupted(_) => Some(outcome),
                _ => None,
            },
    {
        match outcome {
            Outcome::Done(stream) => Polled::Ready(stream),
            Outcome::Failed(e) => Polled::Failed(e),
            Outcome::Interrupted(mid) => {
                self.inner = Some(Outcome::Interrupted(mid));
                Polled::NotReady
            },
        }
    }
}

/// What came of an attempt to close a connection.
#[derive(Clone, Copy, Debug, PartialEq, Eq, Structural)]
pub enum Closing {
    /// The end was announced.
    Sent,
    /// The other side announced the end too.
    Received,
    /// The other side had closed the connection.
    ZeroReturn,
    /// The stream underneath failed.
    Stream,
    /// The other side has to send something first.
    WantRead,
    /// The other side has to take something first.
    WantWrite,
    /// Anything else went wrong.
    Other,
}

/// What to do next with a connection that is being closed.
#[derive(Clone, Copy, Debug, PartialEq, Eq, Structural)]
pub enum Shutdown {
    /// Try again at once.
    Again,
    /// It is closed.
    Ready,
    /// Try again later.
    NotReady,
    /// Tell the failure of the stream as it is.
    StreamFailed,
    /// Tell some other failure.
    Failed,
}

/// What to do after an attempt to close a connection.
pub fn shutdown(closing: Closing) -> (r: Shutdown)
    ensures
        r == match closing {
            Closing::Sent => Shutdown::Again,
            Closing::Received | Closing::ZeroReturn => Shutdown::Ready,
            Closing::Stream => Shutdown::StreamFailed,
            Closing::WantRead | Closing::WantWrite => Shutdown::NotReady,
            Closing::Other => Shutdown::Failed,
        },
{
    match closing {
        Closing::Sent => Shutdown::Again,
        Closing::Received => Shutdown::Ready,
        Closing::ZeroReturn => Shutdown::Ready,
        Closing::Stream => Shutdown::StreamFailed,
        Closing::WantRead => Shutdown::NotReady,
        Closing::WantWrite => Shutdown::NotReady,
        Closing::Other => Shutdown::Failed,
    }
}

/// A handshake is over as soon as it has a result, which is handed on as it is, and stays on its
/// way exactly as long as it is interrupted.
pub proof fn handshakes_end_with_a_result<T, E, M>(
    begun: &mut MidHandshake<T, E, M>,
    b: Begun<T, E, M>,
    resumed: &mut MidHandshake<T, E, M>,
    outcome: Outcome<T, E, M>,
    p: Polled<T, E>,
)
    requires
        old(begun).inner is Some,
        call_ensures(MidHandshake::<T, E, M>::begin, (begun,), b),
        old(resumed).inner is None,
        call_ensures(MidHandshake::<T, E, M>::resumed, (resumed, outcome), p),
    ensures
        final(begun).inner is None,
        match old(begun).inner->Some_0 {
            Outcome::Done(stream) => b is Ready && b->Ready_0 == stream,
            Outcome::Failed(e) => b is Failed && b->Failed_0 == e,
            Outcome::Interrupted(mid) => b is Resume && b->Resume_0 == mid,
        },
        match outcome {
            Outcome::Done(stream) => p is Ready && p->Ready_0 == stream,
            Outcome::Failed(e) => p is Failed && p->Failed_0 == e,
            Outcome::Interrupted(_) => p is NotReady,
        },
        p is NotReady <==> final(resumed).inner is Some,
        p is NotReady ==> final(resumed).inner->Some_0 == outcome,
{
}

/// A connection is closed when the other side has closed it too, is tried again where only this
/// side has, waits where the other side has to act, and fails otherwise.
pub proof fn connections_are_closed_by_both(closing: Closing, r: Shutdown)
    requires
        call_ensures(shutdown, (closing,), r),
    ensures
        r == Shutdown::Ready <==> closing == Closing::Received || closing == Closing::ZeroReturn,
        r == Shutdown::Again <==> closing == Closing::Sent,
        r == Shutdown::NotReady <==> closing == Closing::WantRead || closing == Closing::WantWrite,
        r == Shutdown::StreamFailed <==> closing == Closing::Stream,
        r == Shutdown::Failed <==> closing == Closing::Other,
{
}

} // verus!
