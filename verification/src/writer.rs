use vstd::prelude::*;

use minicbor::encode::write::EndOfSlice;

verus! {

/// `minicbor::encode::write::EndOfSlice`, the error of a full write buffer.
#[verifier::external_type_specification]
#[verifier::external_body]
pub struct ExEndOfSlice(EndOfSlice);

/// The contents of a buffer after `bytes` were written into it at `pos`.
pub open spec fn spec_write_at(buf: Seq<u8>, pos: int, bytes: Seq<u8>) -> Seq<u8> {
    buf.take(pos) + bytes + buf.skip(pos + bytes.len())
}

/// A write position inside a fixed buffer that an encoder fills.
pub struct Cursor(Vec<u8>, usize);

impl Cursor {
    /// The whole buffer, written and unwritten parts alike.
    pub closed spec fn buffer(&self) -> Seq<u8> {
        self.0@
    }

    /// The number of bytes written so far.
    pub closed spec fn position(&self) -> nat {
        self.1 as nat
    }

    /// The cursor never points past the end of its buffer.
    pub closed spec fn wf(&self) -> bool {
        self.1 <= self.0@.len()
    }

    /// A cursor at the start of `buf`.
    pub fn new(buf: Vec<u8>) -> (r: Self)
        ensures
            r.wf(),
            r.buffer() == buf@,
            r.position() == 0,
    {
        Cursor(buf, 0)
    }

    /// The number of bytes written so far.
    pub fn len(&self) -> (r: usize)
        ensures
            r == self.position(),
    {
        self.1
    }

    /// The number of bytes that still fit after the position.
    pub fn remaining(&self) -> (r: usize)
        requires
            self.wf(),
        ensures
            r == self.buffer().len() - self.position(),
    {
        self.0.len() - self.1
    }

    /// The bytes written so far.
    pub fn written(&self) -> (r: &[u8])
        requires
            self.wf(),
        ensures
            r@ == self.buffer().take(self.position() as int),
    {
        &self.0.as_slice()[0..self.1]
    }

    /// Give the buffer back.
    pub fn into_inner(self) -> (r: Vec<u8>)
        ensures
            r@ == self.buffer(),
    {
        self.0
    }

    /// Copy `bytes` into the buffer at the current position and advance past
    /// them; where they do not fit in the space left, fail with `EndOfSlice`
    /// and change nothing.
    pub fn write_all(&mut self, bytes: &[u8]) -> (r: Result<(), EndOfSlice>)
        requires
            old(self).wf(),
        ensures
            final(self).wf(),
            old(self).position() + bytes@.len() <= old(self).buffer().len() ==> {
                &&& r is Ok
                &&& final(self).buffer() == spec_write_at(
                    old(self).buffer(),
                    old(self).position() as int,
                    bytes@,
                )
                &&& final(self).position() == old(self).position() + bytes@.len()
            },
            old(self).position() + bytes@.len() > old(self).buffer().len() ==> {
                &&& r is Err
                &&& final(self).buffer() == old(self).buffer()
                &&& final(self).position() == old(self).position()
            },
    {
        let start = self.1;
        let cap = self.0.len();
        let r = write_into_slice(&mut self.0, start, bytes);
        if r.is_ok() {
            assert(start + bytes@.len() <= cap);
            self.1 = start + bytes.len();
        }
        r
    }
}

/// `<&mut [u8] as minicbor::encode::Write>::write_all` on the part of `buf`
/// from `pos` on. Per its source it copies `bytes` to the front of that part
/// where they fit, and else fails with `EndOfSlice` and copies nothing.
#[verifier::external_body]
fn write_into_slice(buf: &mut Vec<u8>, pos: usize, bytes: &[u8]) -> (r: Result<(), EndOfSlice>)
    requires
        pos <= old(buf)@.len(),
    ensures
        bytes@.len() <= old(buf)@.len() - pos ==> r is Ok && final(buf)@ == spec_write_at(
            old(buf)@,
            pos as int,
            bytes@,
        ),
        bytes@.len() > old(buf)@.len() - pos ==> r is Err && final(buf)@ == old(buf)@,
{
    let mut rest: &mut [u8] = &mut buf[pos..];
    minicbor::encode::Write::write_all(&mut rest, bytes)
}

/// Two writes one after the other leave the same buffer and position as one
/// write of the two byte strings joined.
pub proof fn lemma_write_at_concat(buf: Seq<u8>, pos: int, a: Seq<u8>, b: Seq<u8>)
    requires
        0 <= pos,
        pos + a.len() + b.len() <= buf.len(),
    ensures
        spec_write_at(spec_write_at(buf, pos, a), pos + a.len(), b) == spec_write_at(buf, pos, a + b),
{
    assert(spec_write_at(spec_write_at(buf, pos, a), pos + a.len(), b) =~= spec_write_at(buf, pos, a + b));
}

} // verus!
