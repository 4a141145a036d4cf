use vstd::prelude::*;

use embedded_io_async::ErrorKind;
use std::collections::TryReserveError;
use minicbor::decode;

use crate::writer::spec_write_at;

pub mod asynch;
pub mod direct;

verus! {

/// The byte that ends an array or map of indefinite length.
pub const BREAK: u8 = 0xFF;

/// `embedded_io_async::ErrorKind`, the kind of a source error, carried opaquely.
#[verifier::external_type_specification]
#[verifier::external_body]
pub struct ExErrorKind(ErrorKind);

/// Why reading failed.
#[derive(Debug)]
pub enum Error {
    /// The source ended inside an item.
    UnexpectedEof,
    /// One item does not fit in the read buffer.
    BufferTooSmall,
    /// The source failed.
    Io(ErrorKind),
    /// The bytes are no valid encoding of the item asked for.
    Decode(decode::Error),
    /// Room for decoded items could not be reserved.
    TryReserveError,
}

/// Whether a decoding error says that the input ran out: the result of
/// `decode::Error::is_end_of_input`, which depends on the error value alone.
pub uninterp spec fn spec_is_end_of_input(e: decode::Error) -> bool;

/// `decode::Error::is_end_of_input`: whether decoding stopped because the
/// input ran out, a function of the error's kind (per its source, a match on
/// the private kind field).
#[verifier::external_body]
fn error_is_end_of_input(e: &decode::Error) -> (r: bool)
    ensures
        r == spec_is_end_of_input(*e),
{
    e.is_end_of_input()
}

/// Sort the result of one decoding attempt, given whether its error (if any)
/// is an end-of-input error: a decoded item gives the number of bytes it took,
/// running out of input asks for more bytes, any other error fails.
pub fn classify_decode(result: Result<usize, decode::Error>, end_of_input: bool) -> (r: Result<Option<usize>, Error>)
    ensures
        match result {
            Ok(n) => r == Ok::<Option<usize>, Error>(Some(n)),
            Err(e) => if end_of_input {
                r == Ok::<Option<usize>, Error>(None)
            } else {
                r == Err::<Option<usize>, Error>(Error::Decode(e))
            },
        },
{
    match result {
        Ok(n) => Ok(Some(n)),
        Err(e) => if end_of_input {
            Ok(None)
        } else {
            Err(Error::Decode(e))
        },
    }
}

/// Sort the result of one decoding attempt: `Ok(Some(n))` where an item was
/// decoded from `n` bytes, `Ok(None)` where the decoder ran out of input and
/// more bytes are needed, `Err(Error::Decode(e))` for any other error.
pub fn try_decode_with(result: Result<usize, decode::Error>) -> (r: Result<Option<usize>, Error>)
    ensures
        match result {
            Ok(n) => r == Ok::<Option<usize>, Error>(Some(n)),
            Err(e) => if spec_is_end_of_input(e) {
                r == Ok::<Option<usize>, Error>(None)
            } else {
                r == Err::<Option<usize>, Error>(Error::Decode(e))
            },
        },
{
    match result {
        Ok(n) => classify_decode(Ok(n), false),
        Err(e) => {
            let end = error_is_end_of_input(&e);
            classify_decode(Err(e), end)
        },
    }
}

/// What the caller does next while reading one item.
#[derive(Debug)]
pub enum ReadAction {
    /// Read from the source into the free part of the buffer (`free()` bytes
    /// at most) and hand the bytes over to `read_with_filled`.
    Fill,
    /// Decode an item from `pending()` and hand the outcome to `read_with_decoded`.
    Decode,
    /// The item just decoded is the result.
    Item,
    /// The source ended between items: there is no item.
    End,
    /// Reading failed.
    Fail(Error),
}

/// What the caller does next while peeking at the next byte.
#[derive(Debug, Clone, Copy, PartialEq, Eq, Structural)]
pub enum PeekAction {
    /// Read from the source into the free part of the buffer and hand the
    /// bytes over to `peek_filled`.
    Fill,
    /// The next byte.
    Byte(u8),
}

/// A read buffer between a byte source and a CBOR decoder.
///
/// The source's bytes are appended to the buffer; items are decoded from its
/// pending part, the bytes between `decoded` and `read`. When a decoder needs
/// more bytes, the pending part moves to the front to make room.
pub struct CborReader {
    buf: Vec<u8>,
    read: usize,
    decoded: usize,
    received: Ghost<Seq<u8>>,
    consumed: Ghost<Seq<u8>>,
}

impl CborReader {
    /// The whole buffer.
    pub closed spec fn buffer(&self) -> Seq<u8> {
        self.buf@
    }

    /// The size of the buffer.
    pub open spec fn capacity(&self) -> nat {
        self.buffer().len()
    }

    /// How far the buffer is filled.
    pub closed spec fn read_pos(&self) -> nat {
        self.read as nat
    }

    /// How far the buffer is consumed by decoded items.
    pub closed spec fn decoded_pos(&self) -> nat {
        self.decoded as nat
    }

    /// The bytes received but not yet decoded.
    pub open spec fn pending(&self) -> Seq<u8> {
        self.buffer().subrange(self.decoded_pos() as int, self.read_pos() as int)
    }

    /// Every byte the source has delivered, in order.
    pub closed spec fn received(&self) -> Seq<u8> {
        self.received@
    }

    /// The bytes of every item decoded so far, in order.
    pub closed spec fn consumed(&self) -> Seq<u8> {
        self.consumed@
    }

    /// The positions stay inside the buffer, and the consumed bytes followed
    /// by the pending ones are exactly what the source delivered.
    pub closed spec fn wf(&self) -> bool {
        &&& self.decoded <= self.read <= self.buf@.len()
        &&& self.consumed@ + self.buf@.subrange(self.decoded as int, self.read as int) == self.received@
    }

    /// A reader over an empty buffer `buf`, whose size bounds one item.
    pub fn new(buf: Vec<u8>) -> (r: Self)
        ensures
            r.wf(),
            r.buffer() == buf@,
            r.read_pos() == 0,
            r.decoded_pos() == 0,
            r.received() == Seq::<u8>::empty(),
            r.consumed() == Seq::<u8>::empty(),
    {
        let r = CborReader { buf, read: 0, decoded: 0, received: Ghost(Seq::empty()), consumed: Ghost(Seq::empty()) };
        assert(r.buf@.subrange(0, 0) =~= Seq::<u8>::empty());
        r
    }

    /// How many bytes the next read from the source may deliver.
    pub fn free(&self) -> (r: usize)
        requires
            self.wf(),
        ensures
            r == self.capacity() - self.read_pos(),
    {
        self.buf.len() - self.read
    }

    /// The bytes to decode the next item from.
    pub fn pending_bytes(&self) -> (r: &[u8])
        requires
            self.wf(),
        ensures
            r@ == self.pending(),
    {
        &self.buf.as_slice()[self.decoded..self.read]
    }

    /// Whether no received byte is pending, so that the next step reads
    /// from the source.
    pub fn needs_fill(&self) -> (r: bool)
        requires
            self.wf(),
        ensures
            r == (self.pending().len() == 0),
    {
        self.decoded == self.read
    }

    /// Start over at the front of the buffer once nothing is pending.
    fn reset(&mut self)
        requires
            old(self).wf(),
            old(self).pending().len() == 0,
        ensures
            final(self).wf(),
            final(self).read_pos() == 0,
            final(self).decoded_pos() == 0,
            final(self).buffer() == old(self).buffer(),
            final(self).received() == old(self).received(),
            final(self).consumed() == old(self).consumed(),
    {
        self.read = 0;
        self.decoded = 0;
        assert(self.buf@.subrange(0, 0) =~= Seq::<u8>::empty());
        assert(self.consumed@ + Seq::<u8>::empty() =~= self.consumed@);
    }

    /// Take in `data`, the bytes that the source delivered into the free part
    /// of the buffer. No bytes means the source has ended: that is fine
    /// between items, and an error inside one.
    pub fn read_to_buf(&mut self, data: &[u8]) -> (r: Result<usize, Error>)
        requires
            old(self).wf(),
            data@.len() <= old(self).capacity() - old(self).read_pos(),
        ensures
            final(self).wf(),
            final(self).decoded_pos() == old(self).decoded_pos(),
            final(self).consumed() == old(self).consumed(),
            data@.len() == 0 ==> {
                &&& *final(self) == *old(self)
                &&& (if old(self).read_pos() == 0 {
                    r matches Ok(n) && n == 0
                } else {
                    r matches Err(Error::UnexpectedEof)
                })
            },
            data@.len() > 0 ==> {
                &&& r matches Ok(n) && n == data@.len()
                &&& final(self).buffer() == spec_write_at(old(self).buffer(), old(self).read_pos() as int, data@)
                &&& final(self).read_pos() == old(self).read_pos() + data@.len()
                &&& final(self).received() == old(self).received() + data@
                &&& final(self).pending() == old(self).pending() + data@
            },
    {
        let len = data.len();
        if len == 0 {
            return if self.read == 0 {
                Ok(0)
            } else {
                Err(Error::UnexpectedEof)
            };
        }
        let start = self.read;
        let cap = self.buf.len();
        let ghost old_buf = self.buf@;
        let mut i: usize = 0;
        while i < len
            invariant
                start == old(self).read,
                self.read == old(self).read,
                self.decoded == old(self).decoded,
                self.received == old(self).received,
                self.consumed == old(self).consumed,
                len == data@.len(),
                cap == self.buf@.len(),
                cap == old_buf.len(),
                old_buf == old(self).buf@,
                start + len <= cap,
                i <= len,
                forall|j: int| 0 <= j < start ==> self.buf@[j] == old_buf[j],
                forall|j: int| start <= j < start + i ==> self.buf@[j] == data@[j - start],
                forall|j: int| start + len <= j < cap ==> self.buf@[j] == old_buf[j],
            decreases len - i,
        {
            self.buf.set(start + i, data[i]);
            i = i + 1;
        }
        assert(self.buf@ =~= spec_write_at(old_buf, start as int, data@));
        self.read = start + len;
        self.received = Ghost(self.received@ + data@);
        assert(self.buf@.subrange(self.decoded as int, self.read as int)
            =~= old_buf.subrange(self.decoded as int, start as int) + data@);
        assert(self.consumed@ + (old_buf.subrange(self.decoded as int, start as int) + data@)
            =~= (self.consumed@ + old_buf.subrange(self.decoded as int, start as int)) + data@);
        Ok(len)
    }

    /// Move the pending bytes to the front of the buffer.
    fn compact(&mut self)
        requires
            old(self).wf(),
        ensures
            final(self).wf(),
            final(self).decoded_pos() == 0,
            final(self).read_pos() == old(self).read_pos() - old(self).decoded_pos(),
            final(self).pending() == old(self).pending(),
            final(self).capacity() == old(self).capacity(),
            final(self).received() == old(self).received(),
            final(self).consumed() == old(self).consumed(),
            final(self).buffer().skip(final(self).read_pos() as int)
                == old(self).buffer().skip(final(self).read_pos() as int),
    {
        let from = self.decoded;
        let n = self.read - self.decoded;
        let ghost old_buf = self.buf@;
        let mut i: usize = 0;
        while i < n
            invariant
                from == old(self).decoded,
                self.read == old(self).read,
                self.decoded == old(self).decoded,
                self.received == old(self).received,
                self.consumed == old(self).consumed,
                n == old(self).read - old(self).decoded,
                old_buf == old(self).buf@,
                old(self).read <= old_buf.len(),
                self.buf@.len() == old_buf.len(),
                i <= n,
                forall|j: int| 0 <= j < i ==> self.buf@[j] == old_buf[from + j],
                forall|j: int| i <= j < self.buf@.len() ==> self.buf@[j] == old_buf[j],
            decreases n - i,
        {
            let b = self.buf[from + i];
            self.buf.set(i, b);
            i = i + 1;
        }
        self.read = n;
        self.decoded = 0;
        assert(self.buf@.subrange(0, n as int) =~= old_buf.subrange(from as int, old(self).read as int));
        assert(self.buf@.skip(n as int) =~= old_buf.skip(n as int));
    }

    /// The first step of reading an item: decode right away where bytes are
    /// pending; where none are, start over at the front of the buffer and
    /// read from the source.
    pub fn read_with_start(&mut self) -> (r: ReadAction)
        requires
            old(self).wf(),
        ensures
            final(self).wf(),
            final(self).buffer() == old(self).buffer(),
            final(self).received() == old(self).received(),
            final(self).consumed() == old(self).consumed(),
            final(self).pending() == old(self).pending(),
            if old(self).pending().len() == 0 {
                &&& r is Fill
                &&& final(self).read_pos() == 0
                &&& final(self).decoded_pos() == 0
            } else {
                &&& r is Decode
                &&& *final(self) == *old(self)
            },
    {
        if self.decoded == self.read {
            self.reset();
            ReadAction::Fill
        } else {
            ReadAction::Decode
        }
    }

    /// Take in the bytes that the source delivered while reading an item.
    pub fn read_with_filled(&mut self, data: &[u8]) -> (r: ReadAction)
        requires
            old(self).wf(),
            data@.len() <= old(self).capacity() - old(self).read_pos(),
        ensures
            final(self).wf(),
            final(self).decoded_pos() == old(self).decoded_pos(),
            final(self).consumed() == old(self).consumed(),
            data@.len() == 0 ==> {
                &&& *final(self) == *old(self)
                &&& (if old(self).read_pos() == 0 {
                    r is End
                } else {
                    r matches ReadAction::Fail(Error::UnexpectedEof)
                })
            },
            data@.len() > 0 ==> {
                &&& r is Decode
                &&& final(self).buffer() == spec_write_at(old(self).buffer(), old(self).read_pos() as int, data@)
                &&& final(self).read_pos() == old(self).read_pos() + data@.len()
                &&& final(self).received() == old(self).received() + data@
                &&& final(self).pending() == old(self).pending() + data@
            },
    {
        match self.read_to_buf(data) {
            Err(e) => ReadAction::Fail(e),
            Ok(0) => ReadAction::End,
            Ok(_) => ReadAction::Decode,
        }
    }

    /// Take in the sorted outcome of decoding an item from `pending()`: where
    /// it took `n` bytes, they are consumed and the item is the result;
    /// where more bytes are needed, the pending bytes move to the front and
    /// the source is read, unless they already fill the whole buffer.
    pub fn read_with_decoded(&mut self, outcome: Result<Option<usize>, Error>) -> (r: ReadAction)
        requires
            old(self).wf(),
            outcome matches Ok(Some(n)) ==> n <= old(self).pending().len(),
        ensures
            final(self).wf(),
            final(self).capacity() == old(self).capacity(),
            final(self).received() == old(self).received(),
            match outcome {
                Err(e) => r == ReadAction::Fail(e) && *final(self) == *old(self),
                Ok(Some(n)) => {
                    &&& r is Item
                    &&& final(self).buffer() == old(self).buffer()
                    &&& final(self).read_pos() == old(self).read_pos()
                    &&& final(self).decoded_pos() == old(self).decoded_pos() + n
                    &&& final(self).consumed() == old(self).consumed() + old(self).pending().take(n as int)
                    &&& final(self).pending() == old(self).pending().skip(n as int)
                },
                Ok(None) => if old(self).decoded_pos() == 0 && old(self).read_pos() == old(self).capacity() {
                    &&& r matches ReadAction::Fail(Error::BufferTooSmall)
                    &&& *final(self) == *old(self)
                } else {
                    &&& r is Fill
                    &&& final(self).decoded_pos() == 0
                    &&& final(self).read_pos() == old(self).read_pos() - old(self).decoded_pos()
                    &&& final(self).pending() == old(self).pending()
                    &&& final(self).consumed() == old(self).consumed()
                },
            },
    {
        match outcome {
            Err(e) => ReadAction::Fail(e),
            Ok(Some(n)) => {
                let ghost old_pending = self.pending();
                let ghost old_consumed = self.consumed@;
                self.decoded = self.decoded + n;
                self.consumed = Ghost(old_consumed + old_pending.take(n as int));
                assert(self.pending() =~= old_pending.skip(n as int));
                assert(old_consumed + old_pending.take(n as int) + old_pending.skip(n as int)
                    =~= old_consumed + old_pending);
                ReadAction::Item
            },
            Ok(None) => {
                if self.decoded == 0 && self.read == self.buf.len() {
                    ReadAction::Fail(Error::BufferTooSmall)
                } else {
                    self.compact();
                    ReadAction::Fill
                }
            },
        }
    }

    /// The first step of peeking at the next byte: the first pending byte,
    /// which stays pending; where none is pending, start over at the front
    /// of the buffer and read from the source.
    pub fn peek_start(&mut self) -> (r: PeekAction)
        requires
            old(self).wf(),
        ensures
            final(self).wf(),
            final(self).buffer() == old(self).buffer(),
            final(self).received() == old(self).received(),
            final(self).consumed() == old(self).consumed(),
            final(self).pending() == old(self).pending(),
            if old(self).pending().len() == 0 {
                &&& r is Fill
                &&& final(self).read_pos() == 0
                &&& final(self).decoded_pos() == 0
            } else {
                &&& r == PeekAction::Byte(old(self).pending()[0])
                &&& *final(self) == *old(self)
            },
    {
        if self.decoded == self.read {
            self.reset();
            PeekAction::Fill
        } else {
            PeekAction::Byte(self.buf[self.decoded])
        }
    }

    /// Consume the break byte that ends an array or map of indefinite
    /// length, once a peek has shown it pending.
    pub fn consume_break(&mut self)
        requires
            old(self).wf(),
            old(self).pending().len() > 0,
            old(self).pending()[0] == BREAK,
        ensures
            final(self).wf(),
            final(self).buffer() == old(self).buffer(),
            final(self).read_pos() == old(self).read_pos(),
            final(self).decoded_pos() == old(self).decoded_pos() + 1,
            final(self).received() == old(self).received(),
            final(self).consumed() == old(self).consumed().push(BREAK),
            final(self).pending() == old(self).pending().drop_first(),
    {
        let ghost old_pending = self.pending();
        let ghost old_consumed = self.consumed@;
        self.decoded = self.decoded + 1;
        self.consumed = Ghost(old_consumed.push(BREAK));
        assert(self.pending() =~= old_pending.drop_first());
        assert(old_consumed.push(BREAK) + old_pending.drop_first() =~= old_consumed + old_pending);
    }

    /// Take in the bytes that the source delivered while peeking: no bytes
    /// means no next byte (or an error inside an item), else the first
    /// pending byte.
    pub fn peek_filled(&mut self, data: &[u8]) -> (r: Result<Option<u8>, Error>)
        requires
            old(self).wf(),
            old(self).decoded_pos() == 0,
            data@.len() <= old(self).capacity() - old(self).read_pos(),
        ensures
            final(self).wf(),
            final(self).decoded_pos() == 0,
            final(self).consumed() == old(self).consumed(),
            data@.len() == 0 ==> {
                &&& *final(self) == *old(self)
                &&& (if old(self).read_pos() == 0 {
                    r == Ok::<Option<u8>, Error>(None)
                } else {
                    r matches Err(Error::UnexpectedEof)
                })
            },
            data@.len() > 0 ==> {
                &&& r == Ok::<Option<u8>, Error>(Some(final(self).pending()[0]))
                &&& final(self).read_pos() == old(self).read_pos() + data@.len()
                &&& final(self).received() == old(self).received() + data@
                &&& final(self).pending() == old(self).pending() + data@
            },
    {
        match self.read_to_buf(data) {
            Err(e) => Err(e),
            Ok(0) => Ok(None),
            Ok(_) => Ok(Some(self.buf[self.decoded])),
        }
    }
}

/// At every step of reading, the bytes of the items decoded so far, followed
/// by the bytes still pending, are exactly the bytes the source delivered:
/// no byte is lost, repeated or reordered on its way to the decoder, and the
/// bytes it is handed are the stream after the consumed items, however the
/// source split the stream into reads.
pub proof fn lemma_reader_stream_order(r: &CborReader)
    requires
        r.wf(),
    ensures
        r.consumed() + r.pending() == r.received(),
        r.consumed() == r.received().take(r.consumed().len() as int),
        r.pending() == r.received().skip(r.consumed().len() as int),
        r.pending().len() == r.read_pos() - r.decoded_pos(),
        r.read_pos() <= r.capacity(),
{
    assert(r.received().take(r.consumed().len() as int) =~= r.consumed());
    assert(r.received().skip(r.consumed().len() as int) =~= r.pending());
}

/// What the caller does next while reading the items of an array or map.
#[derive(Debug, Clone, Copy, PartialEq, Eq, Structural)]
pub enum ItemsAction {
    /// Read one item with the caller's item reader, then call `item_read`.
    ReadItem,
    /// Peek at the next byte, then hand it to `peeked`.
    Peek,
    /// The break byte ends the items: consume it with `consume_break`; the
    /// result is this count.
    Break(usize),
    /// All items are read; the result is this count.
    Finish(usize),
}

/// How far the items of an array or map have been read.
#[derive(Debug, Clone, Copy, PartialEq, Eq, Structural)]
pub enum ItemsProgress {
    /// The source ended before the head: there are no items.
    Absent,
    /// `done` of `len` items are read.
    Definite { len: u64, done: u64 },
    /// `count` items are read, and the break byte was not seen yet.
    Indefinite { count: usize },
}

impl ItemsProgress {
    /// The progress right after the head, `None` where the source ended
    /// before it, else the number of items (`None` for indefinite length).
    pub open spec fn spec_start(header: Option<Option<u64>>) -> ItemsProgress {
        match header {
            None => ItemsProgress::Absent,
            Some(Some(len)) => ItemsProgress::Definite { len, done: 0 },
            Some(None) => ItemsProgress::Indefinite { count: 0 },
        }
    }

    /// What to do next: an item that is still due is first looked for with a
    /// peek, so that a source ending before it is noticed.
    pub open spec fn spec_next(self) -> ItemsAction {
        match self {
            ItemsProgress::Absent => ItemsAction::Finish(0),
            ItemsProgress::Definite { len, done } => if done < len {
                ItemsAction::Peek
            } else {
                ItemsAction::Finish(len as usize)
            },
            ItemsProgress::Indefinite { .. } => ItemsAction::Peek,
        }
    }

    /// The progress after one more item was read.
    pub open spec fn spec_item_read(self) -> ItemsProgress {
        match self {
            ItemsProgress::Absent => ItemsProgress::Absent,
            ItemsProgress::Definite { len, done } => ItemsProgress::Definite { len, done: (done + 1) as u64 },
            ItemsProgress::Indefinite { count } => ItemsProgress::Indefinite { count: (count + 1) as usize },
        }
    }

    /// What to do after peeking at `byte`: a source that ended before a due
    /// item is an error; in an array or map of indefinite length the break
    /// byte ends it; any other byte starts an item.
    pub open spec fn spec_peeked(self, byte: Option<u8>) -> Result<ItemsAction, Error> {
        match byte {
            None => Err(Error::UnexpectedEof),
            Some(b) => match self {
                ItemsProgress::Indefinite { count } => if b == BREAK {
                    Ok(ItemsAction::Break(count))
                } else {
                    Ok(ItemsAction::ReadItem)
                },
                _ => Ok(ItemsAction::ReadItem),
            },
        }
    }

    /// The progress right after the head was read (`None` where the source
    /// ended before it).
    pub fn start(header: Option<Option<u64>>) -> (r: ItemsProgress)
        ensures
            r == Self::spec_start(header),
    {
        match header {
            None => ItemsProgress::Absent,
            Some(Some(len)) => ItemsProgress::Definite { len, done: 0 },
            Some(None) => ItemsProgress::Indefinite { count: 0 },
        }
    }

    /// The number of items to announce to the caller's item reader before
    /// the first item, `None` where there is no head and so nothing to announce.
    pub fn begin_len(&self) -> (r: Option<Option<u64>>)
        ensures
            match *self {
                ItemsProgress::Absent => r is None,
                ItemsProgress::Definite { len, .. } => r == Some(Some(len)),
                ItemsProgress::Indefinite { .. } => r == Some(None::<u64>),
            },
    {
        match self {
            ItemsProgress::Absent => None,
            ItemsProgress::Definite { len, .. } => Some(Some(*len)),
            ItemsProgress::Indefinite { .. } => Some(None),
        }
    }

    /// What to do next.
    pub fn next(&self) -> (r: ItemsAction)
        ensures
            r == self.spec_next(),
    {
        match self {
            ItemsProgress::Absent => ItemsAction::Finish(0),
            ItemsProgress::Definite { len, done } => if *done < *len {
                ItemsAction::Peek
            } else {
                ItemsAction::Finish(*len as usize)
            },
            ItemsProgress::Indefinite { .. } => ItemsAction::Peek,
        }
    }

    /// Count one more item read. In an array or map of indefinite length the
    /// count must not overflow.
    pub fn item_read(&mut self)
        requires
            old(self).spec_next() is Peek,
            *old(self) matches ItemsProgress::Indefinite { count } ==> count < usize::MAX,
        ensures
            *final(self) == old(self).spec_item_read(),
    {
        match self {
            ItemsProgress::Absent => {},
            ItemsProgress::Definite { len, done } => {
                *done = *done + 1;
            },
            ItemsProgress::Indefinite { count } => {
                *count = *count + 1;
            },
        }
    }

    /// Whether counting one more item of an array or map of indefinite
    /// length would overflow.
    pub fn count_is_full(&self) -> (r: bool)
        ensures
            r == (*self matches ItemsProgress::Indefinite { count } && count == usize::MAX),
    {
        match self {
            ItemsProgress::Indefinite { count } => *count == usize::MAX,
            _ => false,
        }
    }

    /// What to do after peeking at `byte` before a due item.
    pub fn peeked(&self, byte: Option<u8>) -> (r: Result<ItemsAction, Error>)
        requires
            self.spec_next() is Peek,
        ensures
            match byte {
                None => r matches Err(Error::UnexpectedEof),
                Some(b) => r == self.spec_peeked(byte) && r is Ok,
            },
    {
        match byte {
            None => Err(Error::UnexpectedEof),
            Some(b) => match self {
                ItemsProgress::Indefinite { count } => if b == BREAK {
                    Ok(ItemsAction::Break(*count))
                } else {
                    Ok(ItemsAction::ReadItem)
                },
                _ => Ok(ItemsAction::ReadItem),
            },
        }
    }
}

/// The progress after `k` more items were read.
pub open spec fn spec_after_items(p: ItemsProgress, k: nat) -> ItemsProgress
    decreases k,
{
    if k == 0 {
        p
    } else {
        spec_after_items(p, (k - 1) as nat).spec_item_read()
    }
}

/// An array or map of definite length `len` asks for exactly `len` items,
/// one after the other, each only once a byte of it has arrived (a source
/// that ends before is an error), and then finishes with `len` as its count.
pub proof fn lemma_definite_reads_len_items(len: u64, k: nat, byte: Option<u8>)
    requires
        k <= len,
    ensures
        spec_after_items(ItemsProgress::spec_start(Some(Some(len))), k)
            == (ItemsProgress::Definite { len, done: k as u64 }),
        k < len ==> spec_after_items(ItemsProgress::spec_start(Some(Some(len))), k).spec_next() == ItemsAction::Peek,
        k < len ==> spec_after_items(ItemsProgress::spec_start(Some(Some(len))), k).spec_peeked(byte) == match byte {
            None => Err(Error::UnexpectedEof),
            Some(_) => Ok::<ItemsAction, Error>(ItemsAction::ReadItem),
        },
        k == len ==> spec_after_items(ItemsProgress::spec_start(Some(Some(len))), k).spec_next()
            == ItemsAction::Finish(len as usize),
    decreases k,
{
    if k > 0 {
        lemma_definite_reads_len_items(len, (k - 1) as nat, byte);
    }
}

/// An array or map of indefinite length keeps asking for items until the
/// break byte, and then finishes with the number of items read, the break
/// byte to be consumed; a source that ends before the break byte is an error.
pub proof fn lemma_indefinite_counts_items(k: nat, byte: Option<u8>)
    requires
        k <= usize::MAX,
    ensures
        spec_after_items(ItemsProgress::spec_start(Some(None)), k)
            == (ItemsProgress::Indefinite { count: k as usize }),
        spec_after_items(ItemsProgress::spec_start(Some(None)), k).spec_next() == ItemsAction::Peek,
        spec_after_items(ItemsProgress::spec_start(Some(None)), k).spec_peeked(byte) == match byte {
            None => Err(Error::UnexpectedEof),
            Some(b) => if b == BREAK {
                Ok::<ItemsAction, Error>(ItemsAction::Break(k as usize))
            } else {
                Ok(ItemsAction::ReadItem)
            },
        },
    decreases k,
{
    if k > 0 {
        lemma_indefinite_counts_items((k - 1) as nat, byte);
    }
}

/// A missing head ends the reading at once, with no items.
pub proof fn lemma_absent_header_reads_nothing()
    ensures
        ItemsProgress::spec_start(None).spec_next() == ItemsAction::Finish(0),
{
}

/// `Vec::try_reserve_exact`. The contents stay as they were; asking for no
/// more room always succeeds (the documentation: it "does nothing if the
/// capacity is already sufficient", and an error comes only from a capacity
/// overflow or a failing allocator). Whether a larger reservation succeeds
/// depends on the allocator and is not stated.
#[verifier::external_body]
fn vec_try_reserve_exact<T>(v: &mut Vec<T>, additional: usize) -> (r: Result<(), TryReserveError>)
    ensures
        final(v)@ == old(v)@,
        additional == 0 ==> r is Ok,
{
    v.try_reserve_exact(additional)
}

/// What reading an array answers to the outcome of reserving room for its
/// items: a reservation that succeeded lets reading go on, one that failed
/// is a `TryReserveError`.
pub fn reservation_result(reserved: Result<(), TryReserveError>) -> (r: Result<(), Error>)
    ensures
        reserved is Ok ==> r is Ok,
        reserved is Err ==> r matches Err(Error::TryReserveError),
{
    match reserved {
        Ok(()) => Ok(()),
        Err(_) => Err(Error::TryReserveError),
    }
}

/// Prepare a vector for the items of an array: reserve room for exactly
/// `len` more where the length is known (whether the allocator grants it is
/// its own decision, sorted by `reservation_result`). The vector's contents
/// stay.
pub fn vec_read_begin_array<T>(v: &mut Vec<T>, len: Option<u64>) -> (r: Result<(), Error>)
    ensures
        final(v)@ == old(v)@,
        len is None ==> r is Ok,
        len matches Some(n) && (n as usize) == 0 ==> r is Ok,
        r is Err ==> r matches Err(Error::TryReserveError),
{
    match len {
        Some(len) => reservation_result(vec_try_reserve_exact(v, len as usize)),
        None => Ok(()),
    }
}

/// Append a decoded array item to a vector, after reserving room for it;
/// no item (the source ended) leaves the vector as it was. Whether a missing
/// item ends the array in error is decided by the peek before each due item.
pub fn vec_read_array_item<T>(v: &mut Vec<T>, item: Option<T>) -> (r: Result<(), Error>)
    ensures
        match item {
            None => r is Ok && final(v)@ == old(v)@,
            Some(x) => {
                ||| (r is Ok && final(v)@ == old(v)@.push(x))
                ||| (r matches Err(Error::TryReserveError) && final(v)@ == old(v)@)
            },
        },
{
    match item {
        Some(x) => match v.try_reserve(1) {
            Ok(()) => {
                v.push(x);
                Ok(())
            },
            Err(_) => Err(Error::TryReserveError),
        },
        None => Ok(()),
    }
}

} // verus!
