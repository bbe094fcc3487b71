//! Branch hints, the append-only byte sink and the byte source.

use vstd::prelude::*;

use crate::error::Error;

verus! {

/// Marks a branch as rarely taken; has no effect on behaviour.
pub fn cold() {
}

/// Marks a condition as likely; returns it unchanged.
pub fn likely(b: bool) -> (r: bool)
    ensures
        r == b,
{
    if !b {
        cold();
    }
    b
}

/// Marks a condition as unlikely; returns it unchanged.
pub fn unlikely(b: bool) -> (r: bool)
    ensures
        r == b,
{
    if b {
        cold();
    }
    b
}

/// An append-only byte sink with a known amount of space left.
///
/// `written()` is the byte sequence the sink holds so far and `space()` how
/// many more bytes it accepts; both writes are total within that space.
pub trait Writer: Sized {
    /// The bytes written to the sink so far.
    spec fn written(&self) -> Seq<u8>;

    /// How many more bytes the sink accepts.
    spec fn space(&self) -> nat;

    /// Appends one byte.
    fn write_one(self, v: u8) -> (r: Self)
        requires
            self.space() >= 1,
        ensures
            r.written() == self.written().push(v),
            r.space() == self.space() - 1,
    ;

    /// Appends all bytes of `v` in order.
    fn write_many(self, v: &Vec<u8>) -> (r: Self)
        requires
            self.space() >= v@.len(),
        ensures
            r.written() == self.written() + v@,
            r.space() == self.space() - v@.len(),
    ;
}

/// A bounded byte buffer written front to back: the caller's buffer plus the
/// position up to which it has been filled.
pub struct BytesMut {
    buf: Vec<u8>,
    pos: usize,
}

impl BytesMut {
    /// The write position never passes the end of the buffer.
    #[verifier::type_invariant]
    closed spec fn type_inv(self) -> bool {
        self.pos <= self.buf@.len()
    }

    /// The part of the buffer filled so far.
    pub closed spec fn spec_written(&self) -> Seq<u8> {
        self.buf@.take(self.pos as int)
    }

    /// How many bytes still fit.
    pub closed spec fn spec_space(&self) -> nat {
        if self.pos <= self.buf@.len() {
            (self.buf@.len() - self.pos) as nat
        } else {
            0
        }
    }

    /// The length of the underlying buffer.
    pub closed spec fn spec_capacity(&self) -> nat {
        self.buf@.len() as nat
    }

    /// Wraps a buffer; writing starts at its first byte.
    pub fn new(buf: Vec<u8>) -> (r: Self)
        ensures
            r.spec_written() == Seq::<u8>::empty(),
            r.spec_space() == buf@.len(),
            r.spec_capacity() == buf@.len(),
    {
        let r = BytesMut { buf, pos: 0 };
        proof {
            assert(r.spec_written() =~= Seq::<u8>::empty());
        }
        r
    }

    /// Writes one byte at the current position.
    pub fn write_one(self, v: u8) -> (r: Self)
        requires
            self.spec_space() >= 1,
        ensures
            r.spec_written() == self.spec_written().push(v),
            r.spec_space() == self.spec_space() - 1,
            r.spec_capacity() == self.spec_capacity(),
    {
        proof {
            use_type_invariant(&self);
        }
        let BytesMut { mut buf, pos } = self;
        let cap = buf.len();
        buf[pos] = v;
        let r = BytesMut { buf, pos: pos + 1 };
        proof {
            assert(r.spec_written() =~= self.spec_written().push(v));
        }
        r
    }

    /// Writes all bytes of `v` at the current position.
    pub fn write_many(self, v: &Vec<u8>) -> (r: Self)
        requires
            self.spec_space() >= v@.len(),
        ensures
            r.spec_written() == self.spec_written() + v@,
            r.spec_space() == self.spec_space() - v@.len(),
            r.spec_capacity() == self.spec_capacity(),
    {
        proof {
            use_type_invariant(&self);
        }
        let BytesMut { mut buf, pos } = self;
        let cap = buf.len();
        let mut i: usize = 0;
        while i < v.len()
            invariant
                i <= v@.len(),
                pos + v@.len() <= buf@.len(),
                buf@.len() == cap,
                buf@.len() == self.spec_capacity(),
                buf@.take(pos as int) == self.spec_written(),
                buf@.subrange(pos as int, pos + i) == v@.take(i as int),
            decreases v@.len() - i,
        {
            buf[pos + i] = v[i];
            i += 1;
            proof {
                assert(buf@.subrange(pos as int, pos + i) =~= v@.take(i as int));
                assert(buf@.take(pos as int) =~= self.spec_written());
            }
        }
        let r = BytesMut { buf, pos: pos + v.len() };
        proof {
            assert(v@.take(v@.len() as int) =~= v@);
            assert(r.spec_written() =~= self.spec_written() + v@);
        }
        r
    }

    /// The number of bytes that still fit.
    pub fn len(&self) -> (r: usize)
        ensures
            r == self.spec_space(),
    {
        proof {
            use_type_invariant(self);
        }
        self.buf.len() - self.pos
    }

    /// Hands the buffer back, together with the number of bytes written.
    pub fn into_inner(self) -> (r: (Vec<u8>, usize))
        ensures
            r.0@.len() == self.spec_capacity(),
            r.1 == self.spec_written().len(),
            r.0@.take(r.1 as int) == self.spec_written(),
    {
        proof {
            use_type_invariant(&self);
        }
        (self.buf, self.pos)
    }
}

impl Writer for BytesMut {
    open spec fn written(&self) -> Seq<u8> {
        self.spec_written()
    }

    open spec fn space(&self) -> nat {
        self.spec_space()
    }

    fn write_one(self, v: u8) -> (r: Self) {
        BytesMut::write_one(self, v)
    }

    fn write_many(self, v: &Vec<u8>) -> (r: Self) {
        BytesMut::write_many(self, v)
    }
}

/// A source of bytes read front to back, such as an in-memory buffer or a
/// wrapped input stream.  Nothing is assumed about which bytes a source
/// hands out; `consumed()` names them, so that what a caller computed from
/// them can be pinned to them.
pub trait ByteRead {
    /// The bytes the source has handed out so far, oldest first.  The
    /// default names no bytes and cannot uphold the read contract below;
    /// every source the proofs go through defines its own.
    open spec fn consumed(&self) -> Seq<u8> {
        Seq::empty()
    }

    /// Reads exactly `n` bytes; any shortfall or failure is an error.
    /// A successful read appends exactly the returned bytes to
    /// `consumed()`; a failed read appends nothing and reports either an
    /// I/O failure or the end of the source.
    fn read_exact_vec(&mut self, n: usize) -> (r: Result<Vec<u8>, Error>)
        ensures
            r matches Ok(v) ==> v@.len() == n && final(self).consumed() == old(self).consumed()
                + v@,
            r matches Err(e) ==> final(self).consumed() == old(self).consumed() && (e
                == Error::IoError || e == Error::UnexpectedBufferEnd),
    ;
}

/// The bytes one call obtained from a byte source: what the source has
/// consumed afterwards, beyond what it had consumed before.
pub open spec fn read_bytes_of(pre: Seq<u8>, post: Seq<u8>) -> Seq<u8> {
    post.skip(pre.len() as int)
}

/// Growing a sequence keeps the old one as a prefix, and the growth is
/// what `read_bytes_of` names.
pub proof fn lemma_read_bytes_of(pre: Seq<u8>, grown: Seq<u8>)
    ensures
        pre.is_prefix_of(pre + grown),
        read_bytes_of(pre, pre + grown) == grown,
{
    assert(pre =~= (pre + grown).subrange(0, pre.len() as int));
    assert(read_bytes_of(pre, pre + grown) =~= grown);
}

/// An in-memory byte source: a buffer and the position reached so far.
pub struct SliceReader {
    data: Vec<u8>,
    pos: usize,
}

impl SliceReader {
    /// The read position never passes the end of the buffer.
    #[verifier::type_invariant]
    closed spec fn type_inv(self) -> bool {
        self.pos <= self.data@.len()
    }

    /// The bytes not yet handed out.
    pub closed spec fn spec_remaining(&self) -> Seq<u8> {
        if self.pos <= self.data@.len() {
            self.data@.skip(self.pos as int)
        } else {
            Seq::<u8>::empty()
        }
    }

    /// Wraps a buffer; reading starts at its first byte.
    pub fn new(data: Vec<u8>) -> (r: Self)
        ensures
            r.spec_remaining() == data@,
    {
        let r = SliceReader { data, pos: 0 };
        proof {
            assert(r.spec_remaining() =~= data@);
        }
        r
    }

    /// How many bytes are left.
    pub fn remaining(&self) -> (r: usize)
        ensures
            r == self.spec_remaining().len(),
    {
        proof {
            use_type_invariant(self);
        }
        self.data.len() - self.pos
    }
}

impl ByteRead for SliceReader {
    /// The bytes handed out so far: the part of the buffer before the
    /// current position.
    closed spec fn consumed(&self) -> Seq<u8> {
        self.data@.take(self.pos as int)
    }

    /// Reads the next `n` buffered bytes, or fails if fewer are left.
    fn read_exact_vec(&mut self, n: usize) -> (r: Result<Vec<u8>, Error>)
        ensures
            r matches Ok(v) ==> {
                &&& v@.len() == n
                &&& old(self).spec_remaining().len() >= n
                &&& v@ == old(self).spec_remaining().take(n as int)
                &&& final(self).spec_remaining() == old(self).spec_remaining().skip(n as int)
            },
            r is Err ==> {
                &&& old(self).spec_remaining().len() < n
                &&& *final(self) == *old(self)
            },
    {
        proof {
            use_type_invariant(&*self);
        }
        let total = self.data.len();
        if n > total || self.pos > total - n {
            return Err(Error::UnexpectedBufferEnd);
        }
        let mut v: Vec<u8> = Vec::new();
        let mut i: usize = 0;
        while i < n
            invariant
                i <= n,
                self.pos + n <= self.data@.len(),
                self.data@.len() <= usize::MAX,
                v@ == self.data@.subrange(self.pos as int, self.pos + i),
            decreases n - i,
        {
            v.push(self.data[self.pos + i]);
            i += 1;
            proof {
                assert(v@ =~= self.data@.subrange(self.pos as int, self.pos + i));
            }
        }
        let old_pos = self.pos;
        self.pos = self.pos + n;
        proof {
            assert(v@ =~= old(self).spec_remaining().take(n as int));
            assert(self.spec_remaining() =~= old(self).spec_remaining().skip(n as int));
            assert(self.consumed() =~= old(self).consumed() + v@);
        }
        Ok(v)
    }
}

} // verus!
