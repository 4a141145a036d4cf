use vstd::prelude::*;

use minicbor::data::Type;
use minicbor::decode;
use minicbor::decode::Error as DecodeError;
use minicbor::decode::info::Size;
use minicbor::decode::Decoder;

verus! {

/// `minicbor::data::Type`, the type of a CBOR item, carried opaquely.
#[verifier::external_type_specification]
#[verifier::external_body]
pub struct ExType(Type);

/// `minicbor::decode::Error`, a decoding error, carried opaquely.
#[verifier::external_type_specification]
#[verifier::external_body]
pub struct ExDecodeError(DecodeError);

/// The major type of a CBOR initial byte (its three high bits).
pub open spec fn spec_major(b: u8) -> u8 {
    b / 32
}

/// The additional information of a CBOR initial byte (its five low bits).
pub open spec fn spec_info(b: u8) -> u8 {
    b % 32
}

/// Major type of arrays.
pub const MAJOR_ARRAY: u8 = 4;

/// Major type of maps.
pub const MAJOR_MAP: u8 = 5;

/// The number of bytes of an item head that starts with `b`, where the head is valid.
pub open spec fn spec_head_len(b: u8) -> Option<usize> {
    let info = spec_info(b);
    let major = spec_major(b);
    if info <= 23 {
        Some(1)
    } else if info == 24 {
        Some(2)
    } else if info == 25 {
        Some(3)
    } else if info == 26 {
        Some(5)
    } else if info == 27 {
        Some(9)
    } else if info == 31 && (major == 2 || major == 3 || major == 4 || major == 5 || major == 7) {
        Some(1)
    } else {
        None
    }
}

/// The unsigned big-endian value of a byte string.
pub open spec fn spec_be(s: Seq<u8>) -> nat
    decreases s.len(),
{
    if s.len() == 0 {
        0
    } else {
        spec_be(s.drop_last()) * 256 + s.last() as nat
    }
}

/// How many bytes follow the initial byte to hold the argument, for additional
/// information 24 to 27.
pub open spec fn spec_arg_width(info: u8) -> nat {
    if info == 24 {
        1
    } else if info == 25 {
        2
    } else if info == 26 {
        4
    } else {
        8
    }
}

/// The argument of a head with additional information `info`, read from the
/// bytes `rest` that follow the initial byte; `None` where they are too few
/// or `info` names no argument.
pub open spec fn spec_argument(info: u8, rest: Seq<u8>) -> Option<u64> {
    if info <= 23 {
        Some(info as u64)
    } else if 24 <= info <= 27 {
        if rest.len() >= spec_arg_width(info) {
            Some(spec_be(rest.take(spec_arg_width(info) as int)) as u64)
        } else {
            None
        }
    } else {
        None
    }
}

/// The size information that an item head gives.
#[derive(Debug, Clone, Copy, PartialEq, Eq, Structural)]
pub enum ItemSize {
    /// The item is the head alone.
    Head,
    /// A byte or text string of the given number of bytes.
    Bytes(u64),
    /// An array or map of the given number of items.
    Items(u64),
    /// An item of indefinite length.
    Indef,
}

/// The size information of an item head, `None` where the head is cut short
/// or malformed.
pub open spec fn spec_size_tail(head: Seq<u8>) -> Option<ItemSize> {
    if head.len() == 0 {
        None
    } else {
        let b = head[0];
        let major = spec_major(b);
        let info = spec_info(b);
        if major == 0 || major == 1 || major == 6 || major == 7 {
            Some(ItemSize::Head)
        } else if info == 31 {
            Some(ItemSize::Indef)
        } else {
            match spec_argument(info, head.drop_first()) {
                None => None,
                Some(n) => if major == 2 || major == 3 {
                    Some(ItemSize::Bytes(n))
                } else {
                    Some(ItemSize::Items(n))
                },
            }
        }
    }
}

/// Whether asking a decoder at `pos` for the type of the next item fails:
/// either no byte is left, or the byte heads a negative integer whose width
/// depends on a following byte that is missing.
pub open spec fn spec_datatype_fails(input: Seq<u8>, pos: int) -> bool {
    pos >= input.len() || (0x38 <= input[pos] <= 0x3b && pos + 1 >= input.len())
}

/// `Decoder::datatype` at position `pos` of `input`.
///
/// Per its source it fails exactly when `spec_datatype_fails` holds, and then
/// always with an end-of-input error, which is why that error is dropped here.
/// Which `Type` it returns is not stated: the library only carries it into a
/// type-mismatch error.
#[verifier::external_body]
fn datatype_at(input: &[u8], pos: usize) -> (r: Option<Type>)
    ensures
        r is None <==> spec_datatype_fails(input@, pos as int),
{
    let mut d = Decoder::new(input);
    d.set_position(pos);
    d.datatype().ok()
}

/// `Size::head`: the length of an item head from its initial byte; it fails
/// where the initial byte announces no valid head.
#[verifier::external_body]
fn size_head(fst: u8) -> (r: Result<usize, decode::Error>)
    ensures
        r is Ok <==> spec_head_len(fst) is Some,
        r matches Ok(n) ==> n == spec_head_len(fst).unwrap(),
{
    Size::head(fst)
}

/// `Size::tail`: the size information of an item head, converted to
/// `ItemSize` one variant for one.
#[verifier::external_body]
fn size_tail(head: &[u8]) -> (r: Result<ItemSize, decode::Error>)
    ensures
        r is Ok <==> spec_size_tail(head@) is Some,
        r matches Ok(sz) ==> sz == spec_size_tail(head@).unwrap(),
{
    match Size::tail(head) {
        Ok(Size::Head) => Ok(ItemSize::Head),
        Ok(Size::Bytes(n)) => Ok(ItemSize::Bytes(n)),
        Ok(Size::Items(n)) => Ok(ItemSize::Items(n)),
        Ok(Size::Indef) => Ok(ItemSize::Indef),
        Err(e) => Err(e),
    }
}

/// Whether `b` starts an item of major type `major` of definite or indefinite
/// length (for arrays: `0x80..=0x9b` and `0x9f`).
pub open spec fn spec_is_container_start(b: u8, major: u8) -> bool {
    spec_major(b) == major && (spec_info(b) <= 27 || spec_info(b) == 31)
}

/// Why a container head could not be read.
#[derive(Debug, Clone, Copy, PartialEq, Eq, Structural)]
pub enum HeaderFault {
    /// The input ends before the head does.
    EndOfInput,
    /// The next item is of another type.
    Mismatch,
}

/// What reading an array or map head of major type `major` at `pos` of
/// `input` gives: its number of items (`None` for indefinite length) and the
/// position just past the head.
pub open spec fn spec_decode_header(input: Seq<u8>, pos: int, major: u8) -> Result<(Option<u64>, int), HeaderFault> {
    if spec_datatype_fails(input, pos) {
        Err(HeaderFault::EndOfInput)
    } else {
        let b = input[pos];
        if !spec_is_container_start(b, major) {
            Err(HeaderFault::Mismatch)
        } else {
            let h = spec_head_len(b).unwrap() as int;
            if input.len() - pos < h {
                Err(HeaderFault::EndOfInput)
            } else if spec_info(b) == 31 {
                Ok((None, pos + h))
            } else {
                Ok((Some(spec_argument(spec_info(b), input.subrange(pos + 1, pos + h)).unwrap()), pos + h))
            }
        }
    }
}

/// Why a container head could not be read, with what a decoding error needs.
#[derive(Debug)]
pub enum HeaderError {
    /// The input ends before the head does.
    EndOfInput,
    /// The item found is of the given type, at the given position where known.
    TypeMismatch(Type, Option<usize>),
    /// The head is malformed.
    Invalid(decode::Error),
}

/// Whether a head result is what the head model says.
pub open spec fn spec_header_result(
    input: Seq<u8>,
    pos: int,
    major: u8,
    r: Result<(Option<u64>, usize), HeaderError>,
) -> bool {
    match spec_decode_header(input, pos, major) {
        Ok((len, next)) => r matches Ok((l, n)) && l == len && n == next,
        Err(HeaderFault::EndOfInput) => r matches Err(HeaderError::EndOfInput),
        Err(HeaderFault::Mismatch) => r matches Err(HeaderError::TypeMismatch(_, Some(p))) && p == pos,
    }
}

/// Read the head of an array (`major` 4) or map (`major` 5) at `pos`.
fn decode_header(input: &[u8], pos: usize, major: u8) -> (r: Result<(Option<u64>, usize), HeaderError>)
    requires
        major == MAJOR_ARRAY || major == MAJOR_MAP,
    ensures
        spec_header_result(input@, pos as int, major, r),
{
    let ty = match datatype_at(input, pos) {
        Some(ty) => ty,
        None => return Err(HeaderError::EndOfInput),
    };
    let b = input[pos];
    let info = b % 32;
    if !(b / 32 == major && (info <= 27 || info == 31)) {
        return Err(HeaderError::TypeMismatch(ty, Some(pos)));
    }
    let available = input.len() - pos;
    if available == 0 {
        return Err(HeaderError::EndOfInput);
    }
    let head = match size_head(b) {
        Ok(h) => h,
        Err(e) => return Err(HeaderError::Invalid(e)),
    };
    if available < head {
        return Err(HeaderError::EndOfInput);
    }
    let next = pos + head;
    let head_bytes = &input[pos..next];
    proof {
        assert(head_bytes@[0] == b);
        assert(head_bytes@.drop_first() =~= input@.subrange(pos + 1, next as int));
        if 24 <= info <= 27 {
            assert(head_bytes@.drop_first().take(spec_arg_width(info) as int)
                =~= input@.subrange(pos + 1, next as int));
        }
    }
    match size_tail(head_bytes) {
        Err(e) => Err(HeaderError::Invalid(e)),
        Ok(ItemSize::Head) => Ok((Some(0), next)),
        Ok(ItemSize::Bytes(_)) => Err(HeaderError::TypeMismatch(ty, None)),
        Ok(ItemSize::Items(len)) => Ok((Some(len), next)),
        Ok(ItemSize::Indef) => Ok((None, next)),
    }
}

/// The head of a CBOR array: its number of items, `None` for an array of
/// indefinite length.
#[derive(Debug, Clone, Copy, PartialEq, Eq, Structural)]
pub struct ArrayHeader(pub Option<u64>);

/// The head of a CBOR map: its number of entries, `None` for a map of
/// indefinite length.
#[derive(Debug, Clone, Copy, PartialEq, Eq, Structural)]
pub struct MapHeader(pub Option<u64>);

impl ArrayHeader {
    /// Read an array head at `pos` of `input`, giving it and the position of
    /// the first item.
    pub fn decode(input: &[u8], pos: usize) -> (r: Result<(ArrayHeader, usize), HeaderError>)
        ensures
            match spec_decode_header(input@, pos as int, MAJOR_ARRAY) {
                Ok((len, next)) => r matches Ok((h, n)) && h.0 == len && n == next,
                Err(HeaderFault::EndOfInput) => r matches Err(HeaderError::EndOfInput),
                Err(HeaderFault::Mismatch) => r matches Err(HeaderError::TypeMismatch(_, Some(p))) && p == pos,
            },
    {
        match decode_header(input, pos, MAJOR_ARRAY) {
            Ok((len, next)) => Ok((ArrayHeader(len), next)),
            Err(e) => Err(e),
        }
    }
}

impl MapHeader {
    /// Read a map head at `pos` of `input`, giving it and the position of the
    /// first key.
    pub fn decode(input: &[u8], pos: usize) -> (r: Result<(MapHeader, usize), HeaderError>)
        ensures
            match spec_decode_header(input@, pos as int, MAJOR_MAP) {
                Ok((len, next)) => r matches Ok((h, n)) && h.0 == len && n == next,
                Err(HeaderFault::EndOfInput) => r matches Err(HeaderError::EndOfInput),
                Err(HeaderFault::Mismatch) => r matches Err(HeaderError::TypeMismatch(_, Some(p))) && p == pos,
            },
    {
        match decode_header(input, pos, MAJOR_MAP) {
            Ok((len, next)) => Ok((MapHeader(len), next)),
            Err(e) => Err(e),
        }
    }
}

/// Reading a head never looks past the head: once the input holds the whole
/// head, or shows that the next item is of another type, more input after it
/// changes nothing. Only a head cut short asks for more bytes.
pub proof fn lemma_decode_header_prefix_stable(input: Seq<u8>, more: Seq<u8>, pos: int, major: u8)
    requires
        major == MAJOR_ARRAY || major == MAJOR_MAP,
        0 <= pos,
        spec_decode_header(input, pos, major) != Err::<(Option<u64>, int), HeaderFault>(HeaderFault::EndOfInput),
    ensures
        spec_decode_header(input + more, pos, major) == spec_decode_header(input, pos, major),
{
    let ext = input + more;
    assert(pos < input.len());
    assert(ext[pos] == input[pos]);
    if 0x38 <= input[pos] <= 0x3b {
        assert(ext[pos + 1] == input[pos + 1]);
    }
    let b = input[pos];
    if spec_is_container_start(b, major) {
        lemma_container_head_len(b, major);
        let h = spec_head_len(b).unwrap() as int;
        if input.len() - pos >= h {
            assert forall|i: int| 0 <= i < h - 1 implies #[trigger] ext.subrange(pos + 1, pos + h)[i]
                == input.subrange(pos + 1, pos + h)[i] by {
                assert(ext[pos + 1 + i] == input[pos + 1 + i]);
            }
            assert(ext.subrange(pos + 1, pos + h) =~= input.subrange(pos + 1, pos + h));
        }
    }
}

/// The head of an array or map is one to nine bytes long.
proof fn lemma_container_head_len(b: u8, major: u8)
    requires
        major == MAJOR_ARRAY || major == MAJOR_MAP,
        spec_is_container_start(b, major),
    ensures
        spec_head_len(b) is Some,
        1 <= spec_head_len(b).unwrap() <= 9,
{
}

/// An array or map head is never longer than nine bytes: with nine bytes or
/// more left at `pos`, reading it never asks for more input.
pub proof fn lemma_decode_header_needs_at_most_nine(input: Seq<u8>, pos: int, major: u8)
    requires
        major == MAJOR_ARRAY || major == MAJOR_MAP,
        0 <= pos,
        pos + 9 <= input.len(),
    ensures
        spec_decode_header(input, pos, major) != Err::<(Option<u64>, int), HeaderFault>(HeaderFault::EndOfInput),
{
    if spec_is_container_start(input[pos], major) {
        lemma_container_head_len(input[pos], major);
    }
}

/// `n` as `w` big-endian bytes (the low `w` bytes of `n`).
pub open spec fn spec_be_bytes(n: nat, w: nat) -> Seq<u8>
    decreases w,
{
    if w == 0 {
        Seq::empty()
    } else {
        spec_be_bytes(n / 256, (w - 1) as nat).push((n % 256) as u8)
    }
}

/// 256 to the power `w`.
pub open spec fn spec_pow256(w: nat) -> nat
    decreases w,
{
    if w == 0 {
        1
    } else {
        256 * spec_pow256((w - 1) as nat)
    }
}

/// The shortest head of major type `major` that announces `n`.
pub open spec fn spec_encode_head(major: u8, n: u64) -> Seq<u8> {
    let first = (major * 32) as u8;
    if n < 24 {
        seq![(first + n) as u8]
    } else if n < 0x100 {
        seq![(first + 24) as u8] + spec_be_bytes(n as nat, 1)
    } else if n < 0x1_0000 {
        seq![(first + 25) as u8] + spec_be_bytes(n as nat, 2)
    } else if n < 0x1_0000_0000 {
        seq![(first + 26) as u8] + spec_be_bytes(n as nat, 4)
    } else {
        seq![(first + 27) as u8] + spec_be_bytes(n as nat, 8)
    }
}

/// The powers of 256 that argument widths use.
proof fn lemma_pow256_values()
    ensures
        spec_pow256(1) == 0x100,
        spec_pow256(2) == 0x1_0000,
        spec_pow256(4) == 0x1_0000_0000,
        spec_pow256(8) == 0x1_0000_0000_0000_0000,
{
    assert(spec_pow256(0) == 1);
    assert(spec_pow256(1) == 0x100);
    assert(spec_pow256(2) == 0x1_0000);
    assert(spec_pow256(3) == 0x100_0000);
    assert(spec_pow256(4) == 0x1_0000_0000);
    assert(spec_pow256(5) == 0x100_0000_0000);
    assert(spec_pow256(6) == 0x1_0000_0000_0000);
    assert(spec_pow256(7) == 0x100_0000_0000_0000);
    assert(spec_pow256(8) == 0x1_0000_0000_0000_0000);
}

/// Reading big-endian bytes gives back the number they were made from.
proof fn lemma_be_of_be_bytes(n: nat, w: nat)
    requires
        n < spec_pow256(w),
    ensures
        spec_be_bytes(n, w).len() == w,
        spec_be(spec_be_bytes(n, w)) == n,
    decreases w,
{
    if w > 0 {
        let m = n / 256;
        assert(m < spec_pow256((w - 1) as nat)) by (nonlinear_arith)
            requires
                n < 256 * spec_pow256((w - 1) as nat),
                m == n / 256,
        ;
        lemma_be_of_be_bytes(m, (w - 1) as nat);
        let s = spec_be_bytes(n, w);
        assert(s.drop_last() =~= spec_be_bytes(m, (w - 1) as nat));
        assert(m * 256 + n % 256 == n) by (nonlinear_arith)
            requires
                m == n / 256,
        ;
    }
}

/// The big-endian value of `w` bytes is below 256 to the power `w`.
proof fn lemma_be_bound(s: Seq<u8>)
    ensures
        spec_be(s) < spec_pow256(s.len()),
    decreases s.len(),
{
    if s.len() > 0 {
        lemma_be_bound(s.drop_last());
        let a = spec_be(s.drop_last());
        let p = spec_pow256((s.len() - 1) as nat);
        let b = s.last() as nat;
        assert(a * 256 + b < 256 * p) by (nonlinear_arith)
            requires
                a < p,
                b < 256,
        ;
    }
}

/// The count that a head of an array or map gives is its argument: the
/// additional information itself up to 23, else the whole big-endian number
/// in the one, two, four or eight bytes after the initial byte, which the head
/// ends with; `None` (indefinite length) comes only from additional
/// information 31.
pub proof fn lemma_decode_header_count(input: Seq<u8>, pos: int, major: u8)
    requires
        major == MAJOR_ARRAY || major == MAJOR_MAP,
        0 <= pos,
        spec_decode_header(input, pos, major) is Ok,
    ensures
        ({
            let (len, next) = spec_decode_header(input, pos, major)->Ok_0;
            let b = input[pos];
            &&& spec_major(b) == major
            &&& (len is None <==> spec_info(b) == 31)
            &&& spec_info(b) == 31 ==> next == pos + 1
            &&& spec_info(b) <= 23 ==> len == Some(spec_info(b) as u64) && next == pos + 1
            &&& 24 <= spec_info(b) <= 27 ==> {
                &&& next == pos + 1 + spec_arg_width(spec_info(b))
                &&& next <= input.len()
                &&& len matches Some(n) && n as nat == spec_be(input.subrange(pos + 1, next))
            }
        }),
{
    let b = input[pos];
    lemma_container_head_len(b, major);
    let info = spec_info(b);
    if 24 <= info <= 27 {
        let h = spec_head_len(b).unwrap() as int;
        let rest = input.subrange(pos + 1, pos + h);
        assert(rest.take(spec_arg_width(info) as int) =~= rest);
        lemma_be_bound(rest);
        lemma_pow256_values();
    }
}

/// Reading the shortest head that announces `n` items, followed by anything,
/// gives `n` and the position just past that head.
pub proof fn lemma_decode_encoded_head(major: u8, n: u64, rest: Seq<u8>)
    requires
        major == MAJOR_ARRAY || major == MAJOR_MAP,
    ensures
        spec_decode_header(spec_encode_head(major, n) + rest, 0, major)
            == Ok::<(Option<u64>, int), HeaderFault>((Some(n), spec_encode_head(major, n).len() as int)),
{
    let head = spec_encode_head(major, n);
    let input = head + rest;
    let w: nat = if n < 24 {
        0
    } else if n < 0x100 {
        1
    } else if n < 0x1_0000 {
        2
    } else if n < 0x1_0000_0000 {
        4
    } else {
        8
    };
    lemma_pow256_values();
    if w > 0 {
        lemma_be_of_be_bytes(n as nat, w);
        let bytes = spec_be_bytes(n as nat, w);
        assert(input.subrange(1, 1 + w as int) =~= bytes);
        assert(bytes.take(w as int) =~= bytes);
    }
    assert(input[0] == head[0]);
}

/// Reading the head of indefinite length of major type `major`, followed by
/// anything, gives no count and the position just past its single byte.
pub proof fn lemma_decode_indefinite_head(major: u8, rest: Seq<u8>)
    requires
        major == MAJOR_ARRAY || major == MAJOR_MAP,
    ensures
        spec_decode_header(seq![(major * 32 + 31) as u8] + rest, 0, major)
            == Ok::<(Option<u64>, int), HeaderFault>((None, 1)),
{
    let input = seq![(major * 32 + 31) as u8] + rest;
    assert(input[0] == (major * 32 + 31) as u8);
}

} // verus!
