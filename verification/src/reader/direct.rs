use vstd::prelude::*;

use super::Error;
use crate::writer::spec_write_at;

verus! {

/// One chunk that a direct source lent out: its bytes, whether the source is
/// done after it, and how many of its bytes were taken, by decoding in place
/// or by moving them into the buffer.
pub struct Handle {
    pos: usize,
    data: Vec<u8>,
    completed: bool,
}

impl Handle {
    /// How many of the chunk's bytes were taken.
    pub closed spec fn pos(&self) -> nat {
        self.pos as nat
    }

    /// The chunk's bytes.
    pub closed spec fn data(&self) -> Seq<u8> {
        self.data@
    }

    /// Whether the source has no more chunks after this one.
    pub closed spec fn completed(&self) -> bool {
        self.completed
    }

    /// A chunk from which nothing was taken yet.
    pub fn new(data: Vec<u8>, completed: bool) -> (r: Self)
        ensures
            r.pos() == 0,
            r.data() == data@,
            r.completed() == completed,
    {
        Handle { pos: 0, data, completed }
    }

    /// The chunk's bytes.
    pub fn as_slice(&self) -> (r: &[u8])
        ensures
            r@ == self.data(),
    {
        self.data.as_slice()
    }
}

/// What the caller does next while reading one item from a direct source.
#[derive(Debug)]
pub enum DirectAction {
    /// Take the next chunk from the source and hand it to `read_with_handle`.
    ReadHandle,
    /// Decode an item from `buffered_bytes()` and hand the outcome to `read_with_buffered`.
    DecodeBuffered,
    /// Decode an item in place from `handle_bytes()` and hand the outcome to
    /// `read_with_handle_decoded`.
    DecodeHandle,
    /// The item just decoded is the result.
    Item,
    /// The source is done between items: there is no item.
    End,
    /// Reading failed.
    Fail(Error),
}

/// A reader over a source that lends out chunks of its own memory: chunks
/// are collected in the buffer while they fit; a chunk that does not fit is
/// decoded from in place while nothing is buffered, and otherwise moved into
/// the buffer as far as room allows when an item spans the two.
pub struct DirectCborReader {
    buf: Vec<u8>,
    read: usize,
    decoded: usize,
    current: Option<Handle>,
    received: Ghost<Seq<u8>>,
    consumed: Ghost<Seq<u8>>,
}

impl DirectCborReader {
    /// The whole buffer.
    pub closed spec fn buffer(&self) -> Seq<u8> {
        self.buf@
    }

    /// The size of the buffer.
    pub open spec fn capacity(&self) -> nat {
        self.buffer().len()
    }

    /// How far the buffer is filled.
    pub closed spec fn read_pos(&self) -> nat {
        self.read as nat
    }

    /// How far the buffer is consumed by decoded items.
    pub closed spec fn decoded_pos(&self) -> nat {
        self.decoded as nat
    }

    /// The buffered bytes not yet decoded.
    pub open spec fn pending(&self) -> Seq<u8> {
        self.buffer().subrange(self.decoded_pos() as int, self.read_pos() as int)
    }

    /// The chunk taken last, if any.
    pub closed spec fn current(&self) -> Option<Handle> {
        self.current
    }

    /// The bytes of the current chunk not yet taken.
    pub open spec fn rest(&self) -> Seq<u8> {
        match self.current() {
            Some(h) => h.data().skip(h.pos() as int),
            None => Seq::empty(),
        }
    }

    /// Whether the source said that no chunk follows the current one.
    pub open spec fn source_done(&self) -> bool {
        self.current() matches Some(h) && h.completed()
    }

    /// Every byte of every chunk the source lent out, in order.
    pub closed spec fn received(&self) -> Seq<u8> {
        self.received@
    }

    /// The bytes of every item decoded so far, in order.
    pub closed spec fn consumed(&self) -> Seq<u8> {
        self.consumed@
    }

    /// The positions stay inside the buffer and the chunk, and the consumed
    /// bytes, then the pending ones, then the rest of the chunk, are exactly
    /// what the source lent out.
    pub closed spec fn wf(&self) -> bool {
        &&& self.decoded <= self.read <= self.buf@.len()
        &&& self.current matches Some(h) ==> h.pos <= h.data@.len()
        &&& self.consumed@ + self.buf@.subrange(self.decoded as int, self.read as int) + self.rest()
            == self.received@
    }

    /// A reader over the empty buffer `buf`, before the first chunk.
    pub fn new(buf: Vec<u8>) -> (r: Self)
        ensures
            r.wf(),
            r.buffer() == buf@,
            r.read_pos() == 0,
            r.decoded_pos() == 0,
            r.current() is None,
            r.received() == Seq::<u8>::empty(),
            r.consumed() == Seq::<u8>::empty(),
    {
        let r = DirectCborReader {
            buf,
            read: 0,
            decoded: 0,
            current: None,
            received: Ghost(Seq::empty()),
            consumed: Ghost(Seq::empty()),
        };
        assert(r.buf@.subrange(0, 0) =~= Seq::<u8>::empty());
        r
    }

    /// Whether a chunk was taken already.
    pub fn has_handle(&self) -> (r: bool)
        ensures
            r == self.current() is Some,
    {
        self.current.is_some()
    }

    /// How far the buffer is filled.
    pub fn read_position(&self) -> (r: usize)
        ensures
            r == self.read_pos(),
    {
        self.read
    }

    /// How far the buffer is consumed by decoded items.
    pub fn decoded_position(&self) -> (r: usize)
        ensures
            r == self.decoded_pos(),
    {
        self.decoded
    }

    /// The buffered bytes not yet decoded.
    pub fn buffered_bytes(&self) -> (r: &[u8])
        requires
            self.wf(),
        ensures
            r@ == self.pending(),
    {
        &self.buf.as_slice()[self.decoded..self.read]
    }

    /// The bytes of the current chunk not yet taken.
    pub fn handle_bytes(&self) -> (r: &[u8])
        requires
            self.wf(),
        ensures
            r@ == self.rest(),
    {
        match &self.current {
            Some(h) => {
                let r = &h.data.as_slice()[h.pos..h.data.len()];
                assert(r@ =~= h.data@.skip(h.pos as int));
                r
            },
            None => {
                let r = &self.buf.as_slice()[0..0];
                assert(r@ =~= Seq::<u8>::empty());
                r
            },
        }
    }

    /// Copy `src` into the buffer at `at`.
    fn copy_in(&mut self, at: usize, src: &[u8])
        requires
            at + src@.len() <= old(self).buf@.len(),
        ensures
            final(self).buf@ == spec_write_at(old(self).buf@, at as int, src@),
            final(self).read == old(self).read,
            final(self).decoded == old(self).decoded,
            final(self).current == old(self).current,
            final(self).received == old(self).received,
            final(self).consumed == old(self).consumed,
    {
        let len = src.len();
        let cap = self.buf.len();
        let ghost old_buf = self.buf@;
        let mut i: usize = 0;
        while i < len
            invariant
                self.read == old(self).read,
                self.decoded == old(self).decoded,
                self.current == old(self).current,
                self.received == old(self).received,
                self.consumed == old(self).consumed,
                old_buf == old(self).buf@,
                len == src@.len(),
                at + len <= cap,
                cap == old_buf.len(),
                self.buf@.len() == old_buf.len(),
                i <= len,
                forall|j: int| 0 <= j < at ==> self.buf@[j] == old_buf[j],
                forall|j: int| at <= j < at + i ==> self.buf@[j] == src@[j - at],
                forall|j: int| at + len <= j < old_buf.len() ==> self.buf@[j] == old_buf[j],
            decreases len - i,
        {
            self.buf.set(at + i, src[i]);
            i = i + 1;
        }
        assert(self.buf@ =~= spec_write_at(old_buf, at as int, src@));
    }

    /// Move the pending bytes to the front of the buffer.
    fn compact(&mut self)
        requires
            old(self).wf(),
        ensures
            final(self).wf(),
            final(self).decoded_pos() == 0,
            final(self).read_pos() == old(self).pending().len(),
            final(self).pending() == old(self).pending(),
            final(self).capacity() == old(self).capacity(),
            final(self).current() == old(self).current(),
            final(self).received() == old(self).received(),
            final(self).consumed() == old(self).consumed(),
    {
        let from = self.decoded;
        let n = self.read - self.decoded;
        let ghost old_buf = self.buf@;
        let mut i: usize = 0;
        while i < n
            invariant
                from == old(self).decoded,
                self.read == old(self).read,
                self.decoded == old(self).decoded,
                self.current == old(self).current,
                self.received == old(self).received,
                self.consumed == old(self).consumed,
                n == old(self).read - old(self).decoded,
                old_buf == old(self).buf@,
                old(self).read <= old_buf.len(),
                self.buf@.len() == old_buf.len(),
                i <= n,
                forall|j: int| 0 <= j < i ==> self.buf@[j] == old_buf[from + j],
                forall|j: int| i <= j < self.buf@.len() ==> self.buf@[j] == old_buf[j],
            decreases n - i,
        {
            let b = self.buf[from + i];
            self.buf.set(i, b);
            i = i + 1;
        }
        self.read = n;
        self.decoded = 0;
        assert(self.buf@.subrange(0, n as int) =~= old_buf.subrange(from as int, old(self).read as int));
    }

    /// The first step of reading an item: decode from the buffer where bytes
    /// are pending. Where none are, start over at the front of the buffer:
    /// decode in place where the current chunk has bytes left, else there is
    /// no item where the source is done, else take a chunk.
    pub fn read_with_start(&mut self) -> (r: DirectAction)
        requires
            old(self).wf(),
        ensures
            final(self).source_done() == old(self).source_done(),
            final(self).current() is Some <==> old(self).current() is Some,
            r is End ==> old(self).source_done() && final(self).pending().len() == 0 && final(self).rest().len() == 0,
            r is ReadHandle ==> !old(self).source_done() && final(self).rest().len() == 0,
            final(self).wf(),
            final(self).buffer() == old(self).buffer(),
            final(self).current() == old(self).current(),
            final(self).pending() == old(self).pending(),
            final(self).received() == old(self).received(),
            final(self).consumed() == old(self).consumed(),
            if old(self).pending().len() > 0 {
                r is DecodeBuffered && *final(self) == *old(self)
            } else {
                &&& final(self).read_pos() == 0
                &&& final(self).decoded_pos() == 0
                &&& if old(self).rest().len() > 0 {
                    r is DecodeHandle
                } else if old(self).source_done() {
                    r is End
                } else {
                    r is ReadHandle
                }
            },
    {
        if self.decoded < self.read {
            return DirectAction::DecodeBuffered;
        }
        self.read = 0;
        self.decoded = 0;
        proof {
            assert(self.buf@.subrange(0, 0) =~= Seq::<u8>::empty());
            assert(self.consumed@ + Seq::<u8>::empty() + self.rest()
                =~= self.consumed@ + old(self).pending() + self.rest());
        }
        match &self.current {
            Some(h) => if h.pos < h.data.len() {
                DirectAction::DecodeHandle
            } else if h.completed {
                DirectAction::End
            } else {
                DirectAction::ReadHandle
            },
            None => DirectAction::ReadHandle,
        }
    }

    /// Take in the next chunk. Where it fits after the buffered bytes, it is
    /// moved into the buffer; then, unless the source is done, the next chunk
    /// is taken, and otherwise the buffered bytes are decoded (there is no
    /// item where none are left). A chunk that does not fit becomes the
    /// current one: the buffered bytes are decoded first, or, with none, the
    /// chunk in place.
    pub fn read_with_handle(&mut self, data: Vec<u8>, completed: bool) -> (r: DirectAction)
        requires
            old(self).wf(),
            old(self).rest().len() == 0,
        ensures
            final(self).source_done() == completed,
            r is End ==> completed && final(self).pending().len() == 0 && final(self).rest().len() == 0,
            r is ReadHandle ==> !completed && final(self).rest().len() == 0,
            final(self).wf(),
            final(self).decoded_pos() == old(self).decoded_pos(),
            final(self).received() == old(self).received() + data@,
            final(self).consumed() == old(self).consumed(),
            final(self).current() is Some,
            final(self).current().unwrap().data() == data@,
            final(self).current().unwrap().completed() == completed,
            if old(self).read_pos() + data@.len() <= old(self).capacity() {
                &&& final(self).buffer() == spec_write_at(old(self).buffer(), old(self).read_pos() as int, data@)
                &&& final(self).read_pos() == old(self).read_pos() + data@.len()
                &&& final(self).pending() == old(self).pending() + data@
                &&& final(self).rest().len() == 0
                &&& if !completed {
                    r is ReadHandle
                } else if final(self).pending().len() > 0 {
                    r is DecodeBuffered
                } else {
                    r is End
                }
            } else {
                &&& final(self).buffer() == old(self).buffer()
                &&& final(self).read_pos() == old(self).read_pos()
                &&& final(self).rest() == data@
                &&& if old(self).pending().len() > 0 {
                    r is DecodeBuffered
                } else {
                    r is DecodeHandle
                }
            },
    {
        let len = data.len();
        let ghost old_pending = self.pending();
        let ghost old_received = self.received@;
        let ghost old_consumed = self.consumed@;
        proof {
            assert(old_consumed + old_pending + Seq::<u8>::empty() =~= old_consumed + old_pending);
        }
        self.received = Ghost(old_received + data@);
        if len <= self.buf.len() - self.read {
            let at = self.read;
            self.copy_in(at, data.as_slice());
            self.read = at + len;
            self.current = Some(Handle { pos: len, data, completed });
            proof {
                assert(self.pending() =~= old_pending + self.current.unwrap().data@);
                assert(self.rest() =~= Seq::<u8>::empty());
                assert(old_consumed + (old_pending + self.current.unwrap().data@) + Seq::<u8>::empty()
                    =~= old_received + self.current.unwrap().data@);
            }
            if !completed {
                DirectAction::ReadHandle
            } else if self.decoded < self.read {
                DirectAction::DecodeBuffered
            } else {
                DirectAction::End
            }
        } else {
            self.current = Some(Handle { pos: 0, data, completed });
            proof {
                assert(self.rest() =~= self.current.unwrap().data@);
                assert(old_consumed + old_pending + self.current.unwrap().data@
                    =~= old_received + self.current.unwrap().data@);
            }
            if self.decoded < self.read {
                DirectAction::DecodeBuffered
            } else {
                DirectAction::DecodeHandle
            }
        }
    }

    /// Take in the sorted outcome of decoding from `buffered_bytes()`. An item
    /// of `n` bytes is consumed and is the result. Where more bytes are
    /// needed, the pending bytes move to the front; then as much of the
    /// current chunk's rest as fits follows them and decoding is tried again
    /// (with no room left, one item does not fit the buffer); with no rest,
    /// a source that is done ends inside the item, else a chunk is taken.
    pub fn read_with_buffered(&mut self, outcome: Result<Option<usize>, Error>) -> (r: DirectAction)
        requires
            old(self).wf(),
            outcome matches Ok(Some(n)) ==> n <= old(self).pending().len(),
        ensures
            final(self).source_done() == old(self).source_done(),
            final(self).current() is Some <==> old(self).current() is Some,
            r is End ==> old(self).source_done() && final(self).pending().len() == 0 && final(self).rest().len() == 0,
            r is ReadHandle ==> !old(self).source_done() && final(self).rest().len() == 0,
            final(self).wf(),
            final(self).received() == old(self).received(),
            match outcome {
                Err(e) => r == DirectAction::Fail(e) && *final(self) == *old(self),
                Ok(Some(n)) => {
                    &&& r is Item
                    &&& final(self).buffer() == old(self).buffer()
                    &&& final(self).current() == old(self).current()
                    &&& final(self).read_pos() == old(self).read_pos()
                    &&& final(self).decoded_pos() == old(self).decoded_pos() + n
                    &&& final(self).consumed() == old(self).consumed() + old(self).pending().take(n as int)
                    &&& final(self).pending() == old(self).pending().skip(n as int)
                },
                Ok(None) => {
                    &&& final(self).decoded_pos() == 0
                    &&& final(self).consumed() == old(self).consumed()
                    &&& if old(self).rest().len() > 0 {
                        if old(self).pending().len() == old(self).capacity() {
                            &&& r matches DirectAction::Fail(Error::BufferTooSmall)
                            &&& final(self).pending() == old(self).pending()
                            &&& final(self).rest() == old(self).rest()
                        } else {
                            let k = if old(self).capacity() - old(self).pending().len() < old(self).rest().len() {
                                old(self).capacity() - old(self).pending().len()
                            } else {
                                old(self).rest().len() as int
                            };
                            &&& r is DecodeBuffered
                            &&& final(self).pending() == old(self).pending() + old(self).rest().take(k)
                            &&& final(self).rest() == old(self).rest().skip(k)
                        }
                    } else {
                        &&& final(self).pending() == old(self).pending()
                        &&& final(self).rest().len() == 0
                        &&& if !old(self).source_done() {
                            r is ReadHandle
                        } else if old(self).pending().len() > 0 {
                            r matches DirectAction::Fail(Error::UnexpectedEof)
                        } else {
                            r is End
                        }
                    }
                },
            },
    {
        match outcome {
            Err(e) => DirectAction::Fail(e),
            Ok(Some(n)) => {
                let ghost old_pending = self.pending();
                let ghost old_consumed = self.consumed@;
                self.decoded = self.decoded + n;
                self.consumed = Ghost(old_consumed + old_pending.take(n as int));
                proof {
                    assert(self.pending() =~= old_pending.skip(n as int));
                    assert(old_consumed + old_pending.take(n as int) + old_pending.skip(n as int)
                        =~= old_consumed + old_pending);
                }
                DirectAction::Item
            },
            Ok(None) => {
                self.compact();
                let ghost p0 = self.pending();
                let ghost rest0 = self.rest();
                let ghost cons = self.consumed@;
                let ghost recv = self.received@;
                match self.current.take() {
                    None => DirectAction::ReadHandle,
                    Some(mut h) => {
                        let action;
                        if h.pos < h.data.len() {
                            if self.read == self.buf.len() {
                                action = DirectAction::Fail(Error::BufferTooSmall);
                            } else {
                                let room = self.buf.len() - self.read;
                                let left = h.data.len() - h.pos;
                                let k = if room < left {
                                    room
                                } else {
                                    left
                                };
                                let at = self.read;
                                {
                                    let part = &h.data.as_slice()[h.pos..h.pos + k];
                                    self.copy_in(at, part);
                                }
                                self.read = at + k;
                                proof {
                                    assert(self.buf@.subrange(0, self.read as int)
                                        =~= p0 + rest0.take(k as int));
                                    assert(h.data@.skip(h.pos + k) =~= rest0.skip(k as int));
                                    assert(cons + (p0 + rest0.take(k as int)) + rest0.skip(k as int)
                                        =~= cons + p0 + rest0);
                                }
                                h.pos = h.pos + k;
                                action = DirectAction::DecodeBuffered;
                            }
                        } else if h.completed {
                            action = if self.read > 0 {
                                DirectAction::Fail(Error::UnexpectedEof)
                            } else {
                                DirectAction::End
                            };
                        } else {
                            action = DirectAction::ReadHandle;
                        }
                        self.current = Some(h);
                        action
                    },
                }
            },
        }
    }

    /// Take in the sorted outcome of decoding in place from `handle_bytes()`,
    /// with nothing buffered. An item of `n` bytes is taken from the chunk
    /// and is the result. Where more bytes are needed, the chunk's rest moves
    /// into the buffer (one item does not fit where it is larger); then a
    /// source that is done ends inside the item, else a chunk is taken.
    pub fn read_with_handle_decoded(&mut self, outcome: Result<Option<usize>, Error>) -> (r: DirectAction)
        requires
            old(self).wf(),
            old(self).pending().len() == 0,
            outcome matches Ok(Some(n)) ==> n <= old(self).rest().len(),
        ensures
            final(self).source_done() == old(self).source_done(),
            final(self).current() is Some <==> old(self).current() is Some,
            r is End ==> old(self).source_done() && final(self).pending().len() == 0 && final(self).rest().len() == 0,
            r is ReadHandle ==> !old(self).source_done() && final(self).rest().len() == 0,
            final(self).wf(),
            final(self).received() == old(self).received(),
            match outcome {
                Err(e) => r == DirectAction::Fail(e) && *final(self) == *old(self),
                Ok(Some(n)) => {
                    &&& r is Item
                    &&& final(self).buffer() == old(self).buffer()
                    &&& final(self).pending().len() == 0
                    &&& final(self).consumed() == old(self).consumed() + old(self).rest().take(n as int)
                    &&& final(self).rest() == old(self).rest().skip(n as int)
                    &&& final(self).source_done() == old(self).source_done()
                },
                Ok(None) => {
                    &&& final(self).consumed() == old(self).consumed()
                    &&& final(self).decoded_pos() == 0
                    &&& if old(self).rest().len() > old(self).capacity() {
                        &&& r matches DirectAction::Fail(Error::BufferTooSmall)
                        &&& final(self).pending().len() == 0
                        &&& final(self).rest() == old(self).rest()
                    } else {
                        &&& final(self).pending() == old(self).rest()
                        &&& final(self).rest().len() == 0
                        &&& if !old(self).source_done() {
                            r is ReadHandle
                        } else if old(self).rest().len() > 0 {
                            r matches DirectAction::Fail(Error::UnexpectedEof)
                        } else {
                            r is End
                        }
                    }
                },
            },
    {
        match outcome {
            Err(e) => DirectAction::Fail(e),
            Ok(Some(n)) => {
                let ghost rest0 = self.rest();
                let ghost cons = self.consumed@;
                let ghost p0 = self.pending();
                match self.current.take() {
                    None => {
                        proof {
                            assert(rest0.take(0) =~= Seq::<u8>::empty());
                            assert(cons + Seq::<u8>::empty() =~= cons);
                            assert(rest0.skip(0) =~= rest0);
                        }
                        DirectAction::Item
                    },
                    Some(mut h) => {
                        let dl = h.data.len();
                        assert(h.pos + n <= dl);
                        h.pos = h.pos + n;
                        self.consumed = Ghost(cons + rest0.take(n as int));
                        proof {
                            assert(h.data@.skip(h.pos as int) =~= rest0.skip(n as int));
                            assert(cons + rest0.take(n as int) + p0 + rest0.skip(n as int)
                                =~= cons + p0 + rest0);
                        }
                        self.current = Some(h);
                        DirectAction::Item
                    },
                }
            },
            Ok(None) => {
                self.compact();
                let ghost rest0 = self.rest();
                let ghost cons = self.consumed@;
                match self.current.take() {
                    None => DirectAction::ReadHandle,
                    Some(mut h) => {
                        let left = h.data.len() - h.pos;
                        let action;
                        if left > self.buf.len() {
                            action = DirectAction::Fail(Error::BufferTooSmall);
                        } else {
                            {
                                let part = &h.data.as_slice()[h.pos..h.data.len()];
                                self.copy_in(0, part);
                            }
                            self.read = left;
                            proof {
                                assert(self.buf@.subrange(0, left as int) =~= rest0);
                                assert(h.data@.skip(h.data@.len() as int) =~= Seq::<u8>::empty());
                                assert(cons + rest0 + Seq::<u8>::empty() =~= cons + Seq::<u8>::empty() + rest0);
                            }
                            h.pos = h.data.len();
                            action = if !h.completed {
                                DirectAction::ReadHandle
                            } else if left > 0 {
                                DirectAction::Fail(Error::UnexpectedEof)
                            } else {
                                DirectAction::End
                            };
                        }
                        self.current = Some(h);
                        action
                    },
                }
            },
        }
    }
}

/// At every step of reading from a direct source, the bytes of the items
/// decoded so far, then the buffered bytes not yet decoded, then the rest of
/// the current chunk are exactly the bytes the source lent out: no byte is
/// lost, repeated or reordered on its way to the decoder.
pub proof fn lemma_direct_reader_stream_order(r: &DirectCborReader)
    requires
        r.wf(),
    ensures
        r.consumed() + r.pending() + r.rest() == r.received(),
        r.read_pos() <= r.capacity(),
{
}

} // verus!
