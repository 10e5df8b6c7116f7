//! Sources and destinations of bytes.

use vstd::prelude::*;

verus! {

/// Why a read from memory gave nothing.
#[derive(Clone, Copy, Debug, PartialEq, Eq, Structural)]
pub enum ReadError {
    /// The bytes ended before the value did.
    UnexpectedEof,
}

/// Why a write to memory did not happen.
#[derive(Clone, Copy, Debug, PartialEq, Eq, Structural)]
pub enum WriteError {
    /// The destination takes no more bytes.
    Full,
}

/// Where bytes are read from: bytes, and after them a failure.
pub trait ByteSource: Sized {
    /// Why a read gave nothing.
    type Error;

    /// The bytes that were taken.
    spec fn taken(&self) -> Seq<u8>;

    /// The bytes that are left.
    spec fn remaining(&self) -> Seq<u8>;

    /// The failure that comes after the bytes that are left.
    spec fn end(&self) -> Self::Error;

    /// Takes the next byte. At the end nothing changes.
    fn read_byte(&mut self) -> (r: Result<u8, Self::Error>)
        ensures
            final(self).end() == old(self).end(),
            old(self).remaining().len() == 0 ==> r == Err::<u8, Self::Error>(old(self).end())
                && final(self).remaining() == old(self).remaining() && final(self).taken() == old(
                self,
            ).taken(),
            old(self).remaining().len() > 0 ==> r == Ok::<u8, Self::Error>(old(self).remaining()[0])
                && final(self).remaining() == old(self).remaining().skip(1) && final(self).taken()
                == old(self).taken().push(old(self).remaining()[0]),
    ;
}

/// What is left of `ahead` where `n` bytes are written over its front.
pub open spec fn overwritten(ahead: Seq<u8>, n: nat) -> Seq<u8> {
    if n <= ahead.len() {
        ahead.skip(n as int)
    } else {
        Seq::empty()
    }
}

/// Where bytes are written to.
pub trait ByteSink: Sized {
    /// Why a write did not happen.
    type Error;

    /// The bytes before the position, the written ones among them.
    spec fn written(&self) -> Seq<u8>;

    /// The bytes from the position on, over which the next ones are written.
    spec fn ahead(&self) -> Seq<u8>;

    /// The failure of the next write, if it fails.
    spec fn refusal(&self) -> Option<Self::Error>;

    /// How many of `n` bytes a write takes where `room` bytes lie ahead, unless it fails.
    spec fn accepts(room: nat, n: nat) -> nat;

    /// Writes the front of `buf`, as much of it as is taken.
    fn write_bytes(&mut self, buf: &[u8]) -> (r: Result<usize, Self::Error>)
        ensures
            match old(self).refusal() {
                None => {
                    let n = Self::accepts(old(self).ahead().len(), buf@.len());
                    &&& r == Ok::<usize, Self::Error>(n as usize)
                    &&& final(self).written() == old(self).written() + buf@.take(n as int)
                    &&& final(self).ahead() == overwritten(old(self).ahead(), n)
                },
                Some(e) => {
                    &&& r == Err::<usize, Self::Error>(e)
                    &&& final(self).written() == old(self).written()
                    &&& final(self).ahead() == old(self).ahead()
                },
            },
    ;
}

/// A vector takes whatever is written to it.
impl ByteSink for Vec<u8> {
    type Error = WriteError;

    open spec fn written(&self) -> Seq<u8> {
        self@
    }

    open spec fn ahead(&self) -> Seq<u8> {
        Seq::empty()
    }

    open spec fn refusal(&self) -> Option<WriteError> {
        None
    }

    open spec fn accepts(room: nat, n: nat) -> nat {
        n
    }

    fn write_bytes(&mut self, buf: &[u8]) -> (r: Result<usize, WriteError>) {
        self.extend_from_slice(buf);
        assert(self@ =~= old(self)@ + buf@.take(buf@.len() as int));
        assert(overwritten(Seq::empty(), buf@.len()) =~= Seq::<u8>::empty());
        Ok(buf.len())
    }
}

/// A position in a buffer that it owns.
pub struct Cursor {
    buf: Vec<u8>,
    pos: usize,
}

impl Cursor {
    #[verifier::type_invariant]
    spec fn within(self) -> bool {
        self.pos <= self.buf@.len()
    }

    /// The bytes from the position on.
    pub closed spec fn unread(&self) -> Seq<u8> {
        self.buf@.skip(self.pos as int)
    }

    /// The bytes before the position.
    pub closed spec fn passed(&self) -> Seq<u8> {
        self.buf@.take(self.pos as int)
    }

    /// A cursor at the start of `buf`.
    pub fn new(buf: Vec<u8>) -> (r: Cursor)
        ensures
            r.passed() == Seq::<u8>::empty(),
            r.unread() == buf@,
    {
        let r = Cursor { buf, pos: 0 };
        assert(r.passed() =~= Seq::<u8>::empty());
        assert(r.unread() =~= buf@);
        r
    }

    /// The buffer.
    pub fn into_inner(self) -> (r: Vec<u8>)
        ensures
            r@ == self.passed() + self.unread(),
    {
        proof {
            use_type_invariant(&self);
        }
        assert(self.buf@ =~= self.passed() + self.unread());
        self.buf
    }

    /// How many bytes there are from the position on.
    pub fn len_unread(&self) -> (r: usize)
        ensures
            r == self.unread().len(),
    {
        proof {
            use_type_invariant(self);
        }
        self.buf.len() - self.pos
    }

    /// Takes the next `n` bytes. Where fewer are left, they are used up.
    pub fn read_exact(&mut self, n: usize) -> (r: Result<Vec<u8>, ReadError>)
        ensures
            old(self).unread().len() < n ==> r == Err::<Vec<u8>, ReadError>(
                ReadError::UnexpectedEof,
            ) && final(self).unread() == Seq::<u8>::empty() && final(self).passed() == old(
                self,
            ).passed() + old(self).unread(),
            old(self).unread().len() >= n ==> r is Ok && r->Ok_0@ == old(self).unread().take(
                n as int,
            ) && final(self).unread() == old(self).unread().skip(n as int) && final(self).passed()
                == old(self).passed() + old(self).unread().take(n as int),
    {
        proof {
            use_type_invariant(&*self);
        }
        if self.buf.len() - self.pos < n {
            self.pos = self.buf.len();
            assert(self.unread() =~= Seq::<u8>::empty());
            assert(self.passed() =~= old(self).passed() + old(self).unread());
            Err(ReadError::UnexpectedEof)
        } else {
            let taken = vstd::slice::slice_subrange(self.buf.as_slice(), self.pos, self.pos + n);
            let taken = vstd::slice::slice_to_vec(taken);
            self.pos = self.pos + n;
            assert(taken@ =~= old(self).unread().take(n as int));
            assert(self.unread() =~= old(self).unread().skip(n as int));
            assert(self.passed() =~= old(self).passed() + old(self).unread().take(n as int));
            Ok(taken)
        }
    }

    /// Takes all that is left.
    pub fn read_to_end(&mut self) -> (r: Vec<u8>)
        ensures
            r@ == old(self).unread(),
            final(self).unread() == Seq::<u8>::empty(),
            final(self).passed() == old(self).passed() + old(self).unread(),
    {
        proof {
            use_type_invariant(&*self);
        }
        let rest = vstd::slice::slice_subrange(self.buf.as_slice(), self.pos, self.buf.len());
        let rest = vstd::slice::slice_to_vec(rest);
        self.pos = self.buf.len();
        assert(rest@ =~= old(self).unread());
        assert(self.unread() =~= Seq::<u8>::empty());
        assert(self.passed() =~= old(self).passed() + old(self).unread());
        rest
    }
}

impl ByteSource for Cursor {
    type Error = ReadError;

    open spec fn end(&self) -> ReadError {
        ReadError::UnexpectedEof
    }

    open spec fn taken(&self) -> Seq<u8> {
        self.passed()
    }

    open spec fn remaining(&self) -> Seq<u8> {
        self.unread()
    }

    fn read_byte(&mut self) -> (r: Result<u8, ReadError>) {
        proof {
            use_type_invariant(&*self);
        }
        if self.pos < self.buf.len() {
            let b = self.buf[self.pos];
            self.pos = self.pos + 1;
            assert(self.unread() =~= old(self).unread().skip(1));
            assert(self.passed() =~= old(self).passed().push(b));
            Ok(b)
        } else {
            Err(ReadError::UnexpectedEof)
        }
    }
}

/// Writing goes over what stands at the position, and on past the end of the buffer.
impl ByteSink for Cursor {
    type Error = WriteError;

    open spec fn written(&self) -> Seq<u8> {
        self.passed()
    }

    open spec fn ahead(&self) -> Seq<u8> {
        self.unread()
    }

    open spec fn refusal(&self) -> Option<WriteError> {
        None
    }

    open spec fn accepts(room: nat, n: nat) -> nat {
        n
    }

    fn write_bytes(&mut self, buf: &[u8]) -> (r: Result<usize, WriteError>) {
        proof {
            use_type_invariant(&*self);
        }
        let mut out: Vec<u8> = Vec::new();
        out.extend_from_slice(vstd::slice::slice_subrange(self.buf.as_slice(), 0, self.pos));
        out.extend_from_slice(buf);
        let pos = out.len();
        if pos < self.buf.len() {
            out.extend_from_slice(
                vstd::slice::slice_subrange(self.buf.as_slice(), pos, self.buf.len()),
            );
        }
        *self = Cursor { buf: out, pos };
        assert(self.passed() =~= old(self).passed() + buf@.take(buf@.len() as int));
        assert(self.unread() =~= overwritten(old(self).unread(), buf@.len()));
        Ok(buf.len())
    }
}

/// A position in a buffer that keeps its length.
pub struct FixedCursor {
    inner: Cursor,
}

impl FixedCursor {
    /// The bytes from the position on.
    pub closed spec fn room(&self) -> Seq<u8> {
        self.inner.unread()
    }

    /// The bytes before the position.
    pub closed spec fn passed(&self) -> Seq<u8> {
        self.inner.passed()
    }

    /// A cursor at the start of `buf`.
    pub fn new(buf: Vec<u8>) -> (r: FixedCursor)
        ensures
            r.passed() == Seq::<u8>::empty(),
            r.room() == buf@,
    {
        FixedCursor { inner: Cursor::new(buf) }
    }

    /// The buffer.
    pub fn into_inner(self) -> (r: Vec<u8>)
        ensures
            r@ == self.passed() + self.room(),
    {
        self.inner.into_inner()
    }
}

/// Writing goes over what stands at the position, and stops where the buffer ends.
impl ByteSink for FixedCursor {
    type Error = WriteError;

    open spec fn written(&self) -> Seq<u8> {
        self.passed()
    }

    open spec fn ahead(&self) -> Seq<u8> {
        self.room()
    }

    open spec fn refusal(&self) -> Option<WriteError> {
        None
    }

    open spec fn accepts(room: nat, n: nat) -> nat {
        if n <= room {
            n
        } else {
            room
        }
    }

    fn write_bytes(&mut self, buf: &[u8]) -> (r: Result<usize, WriteError>) {
        let room = self.inner.len_unread();
        let n = if buf.len() <= room {
            buf.len()
        } else {
            room
        };
        let front = vstd::slice::slice_subrange(buf, 0, n);
        assert(front@.take(n as int) =~= buf@.take(n as int));
        self.inner.write_bytes(front)
    }
}

/// Memory is read in order: from the start of a buffer, `n` bytes are the first `n`, what is left
/// are the others, and nothing is lost or altered. Where there are fewer, none are given.
pub proof fn memory_is_read_in_order(
    buf: Vec<u8>,
    start: Cursor,
    rdr: &mut Cursor,
    n: usize,
    r: Result<Vec<u8>, ReadError>,
    end: Cursor,
    back: Vec<u8>,
)
    requires
        call_ensures(Cursor::new, (buf,), start),
        *old(rdr) == start,
        call_ensures(Cursor::read_exact, (rdr, n), r),
        *final(rdr) == end,
        call_ensures(Cursor::into_inner, (end,), back),
    ensures
        r is Ok <==> n <= buf@.len(),
        r is Ok ==> r->Ok_0@ == buf@.take(n as int) && end.unread() == buf@.skip(n as int),
        r is Err ==> end.unread().len() == 0,
        back@ == buf@,
{
    assert(Seq::<u8>::empty() + buf@ =~= buf@);
    if n <= buf@.len() {
        assert(Seq::<u8>::empty() + buf@.take(n as int) + buf@.skip(n as int) =~= buf@);
    } else {
        assert(back@ =~= buf@);
    }
}

/// The next byte is the first of those that are left, and all that is left are the others.
pub proof fn bytes_are_read_one_by_one(
    rdr: &mut Cursor,
    r: Result<u8, ReadError>,
    rest: &mut Cursor,
    all: Vec<u8>,
)
    requires
        call_ensures(<Cursor as ByteSource>::read_byte, (rdr,), r),
        *old(rest) == *final(rdr),
        call_ensures(Cursor::read_to_end, (rest,), all),
    ensures
        r is Ok <==> old(rdr).unread().len() > 0,
        r is Ok ==> old(rdr).unread() == seq![r->Ok_0] + all@,
        r is Err ==> all@.len() == 0,
        final(rest).unread().len() == 0,
{
    if r is Ok {
        assert(old(rdr).unread() =~= seq![r->Ok_0] + all@);
    }
}

/// What is written replaces as many bytes from the position on as there are, and the rest of the
/// buffer stays. A buffer that grows takes all of it; one that keeps its length what fits.
pub proof fn memory_is_written_over(
    wtr: &mut Cursor,
    fixed: &mut FixedCursor,
    buf: &[u8],
    r: Result<usize, WriteError>,
    f: Result<usize, WriteError>,
    i: int,
)
    requires
        call_ensures(<Cursor as ByteSink>::write_bytes, (wtr, buf), r),
        call_ensures(<FixedCursor as ByteSink>::write_bytes, (fixed, buf), f),
    ensures
        r == Ok::<usize, WriteError>(buf@.len() as usize),
        final(wtr).passed() == old(wtr).passed() + buf@,
        final(wtr).unread().len() == if buf@.len() <= old(wtr).unread().len() {
            old(wtr).unread().len() - buf@.len()
        } else {
            0
        },
        0 <= i < final(wtr).unread().len() ==> final(wtr).unread()[i] == old(wtr).unread()[buf@.len()
            + i],
        f is Ok,
        f->Ok_0 <= buf@.len(),
        f->Ok_0 <= old(fixed).room().len(),
        f->Ok_0 == buf@.len() || f->Ok_0 == old(fixed).room().len(),
        final(fixed).passed() == old(fixed).passed() + buf@.take(f->Ok_0 as int),
        final(fixed).room() == old(fixed).room().skip(f->Ok_0 as int),
{
    assert(buf@.len() == buf.len());
    assert(buf@.take(buf@.len() as int) =~= buf@);
    assert(final(fixed).room() =~= old(fixed).room().skip(f->Ok_0 as int));
}

} // verus!
