use minicbor::decode::{self, Decode, Decoder};
use minicbor_embedded_io::header::{ArrayHeader, HeaderError};
use minicbor_embedded_io::reader::direct::{DirectAction, DirectCborReader, Handle};
use minicbor_embedded_io::reader::{try_decode_with, Error};

/// A source that lends out the given chunks, each with its "completed" flag.
struct Chunks {
    chunks: Vec<(Vec<u8>, bool)>,
    next: usize,
}

impl Chunks {
    fn new(chunks: Vec<(Vec<u8>, bool)>) -> Self {
        Chunks { chunks, next: 0 }
    }

    fn read(&mut self) -> (Vec<u8>, bool) {
        let chunk = self.chunks.get(self.next).cloned().unwrap_or((Vec::new(), true));
        self.next += 1;
        chunk
    }
}

struct Arr(ArrayHeader);

impl<'b, C> Decode<'b, C> for Arr {
    fn decode(d: &mut Decoder<'b>, _ctx: &mut C) -> Result<Self, decode::Error> {
        match ArrayHeader::decode(d.input(), d.position()) {
            Ok((h, next)) => {
                d.set_position(next);
                Ok(Arr(h))
            }
            Err(HeaderError::EndOfInput) => Err(decode::Error::end_of_input()),
            Err(HeaderError::TypeMismatch(ty, Some(pos))) => {
                Err(decode::Error::type_mismatch(ty).with_message("expected array").at(pos))
            }
            Err(HeaderError::TypeMismatch(ty, None)) => Err(decode::Error::type_mismatch(ty)),
            Err(HeaderError::Invalid(e)) => Err(e),
        }
    }
}

fn attempt<T: for<'a> Decode<'a, ()>>(bytes: &[u8], item: &mut Option<T>) -> Result<Option<usize>, Error> {
    let mut d = Decoder::new(bytes);
    let result = match d.decode::<T>() {
        Ok(v) => {
            *item = Some(v);
            Ok(d.position())
        }
        Err(e) => Err(e),
    };
    try_decode_with(result)
}

/// Read one item, performing the actions the reader asks for.
fn read<T: for<'a> Decode<'a, ()>>(r: &mut DirectCborReader, src: &mut Chunks) -> Result<Option<T>, Error> {
    let mut item = None;
    let mut action = r.read_with_start();
    loop {
        action = match action {
            DirectAction::ReadHandle => {
                let (data, completed) = src.read();
                r.read_with_handle(data, completed)
            }
            DirectAction::DecodeBuffered => {
                let outcome = attempt::<T>(r.buffered_bytes(), &mut item);
                r.read_with_buffered(outcome)
            }
            DirectAction::DecodeHandle => {
                let outcome = attempt::<T>(r.handle_bytes(), &mut item);
                r.read_with_handle_decoded(outcome)
            }
            DirectAction::Item => return Ok(item),
            DirectAction::End => return Ok(None),
            DirectAction::Fail(e) => return Err(e),
        };
    }
}

#[test]
fn direct_can_read_manually() {
    let cbor: [u8; 4] = [0x83, 0x01, 0x02, 0x03];
    // the slice is lent out whole, then the source reports that it is done
    let mut source = Chunks::new(vec![(cbor.to_vec(), false), (Vec::new(), true)]);
    let mut reader = DirectCborReader::new(vec![0; 16]);
    assert_eq!(3, (read::<Arr>(&mut reader, &mut source).unwrap().unwrap().0).0.unwrap());
    assert_eq!(1, read::<u8>(&mut reader, &mut source).unwrap().unwrap());
    assert_eq!(2, read::<u8>(&mut reader, &mut source).unwrap().unwrap());
    assert_eq!(3, read::<u8>(&mut reader, &mut source).unwrap().unwrap());
    assert!(read::<u8>(&mut reader, &mut source).unwrap().is_none());
}

#[test]
fn reads_a_slice_lent_out_as_one_final_chunk() {
    let cbor: [u8; 4] = [0x83, 0x01, 0x02, 0x03];
    let mut source = Chunks::new(vec![(cbor.to_vec(), true)]);
    let mut reader = DirectCborReader::new(vec![0; 16]);
    assert_eq!(3, (read::<Arr>(&mut reader, &mut source).unwrap().unwrap().0).0.unwrap());
    for i in 1..=3u8 {
        assert_eq!(i, read::<u8>(&mut reader, &mut source).unwrap().unwrap());
    }
    assert!(read::<u8>(&mut reader, &mut source).unwrap().is_none());
}

#[test]
fn items_decode_in_place_from_a_chunk_that_does_not_fit() {
    // the buffer holds 2 bytes, the chunk 4: the items come from the chunk itself
    let mut source = Chunks::new(vec![(vec![0x01, 0x02, 0x03, 0x04], true)]);
    let mut reader = DirectCborReader::new(vec![0; 2]);
    for i in 1..=4u8 {
        assert_eq!(i, read::<u8>(&mut reader, &mut source).unwrap().unwrap());
    }
    assert!(read::<u8>(&mut reader, &mut source).unwrap().is_none());
}

#[test]
fn item_spanning_the_buffer_and_the_next_chunk_is_read() {
    // 1 fits the buffer with the head of a u16 (0x19 0x01); the next chunk,
    // too large for the buffer, holds its last byte and two more items
    let mut source = Chunks::new(vec![
        (vec![0x01, 0x19, 0x01], false),
        (vec![0x00, 0x05, 0x06], true),
    ]);
    let mut reader = DirectCborReader::new(vec![0; 4]);
    assert_eq!(1, read::<u8>(&mut reader, &mut source).unwrap().unwrap());
    assert_eq!(256, read::<u16>(&mut reader, &mut source).unwrap().unwrap());
    assert_eq!(5, read::<u8>(&mut reader, &mut source).unwrap().unwrap());
    assert_eq!(6, read::<u8>(&mut reader, &mut source).unwrap().unwrap());
    assert!(read::<u8>(&mut reader, &mut source).unwrap().is_none());
}

#[test]
fn items_do_not_depend_on_how_the_chunks_split_them() {
    let values: Vec<u32> = (0..30).map(|i| i * 977).collect();
    let mut cbor = Vec::new();
    for v in &values {
        cbor.extend(minicbor::to_vec(v).unwrap());
    }
    for size in 1..=9 {
        let chunks: Vec<(Vec<u8>, bool)> = cbor
            .chunks(size)
            .enumerate()
            .map(|(i, c)| (c.to_vec(), (i + 1) * size >= cbor.len()))
            .collect();
        let mut source = Chunks::new(chunks);
        let mut reader = DirectCborReader::new(vec![0; 5]);
        let mut got = Vec::new();
        while let Some(v) = read::<u32>(&mut reader, &mut source).unwrap() {
            got.push(v);
        }
        assert_eq!(values, got);
    }
}

#[test]
fn item_cut_short_by_the_final_chunk_is_unexpected_eof() {
    // a text head announcing 3 bytes, only 1 follows
    let mut source = Chunks::new(vec![(vec![0x63, 0x61], true)]);
    let mut reader = DirectCborReader::new(vec![0; 8]);
    assert!(matches!(read::<String>(&mut reader, &mut source), Err(Error::UnexpectedEof)));
}

#[test]
fn item_larger_than_the_buffer_is_buffer_too_small() {
    let cbor = minicbor::to_vec("hello").unwrap();
    let mut source = Chunks::new(vec![(cbor[..2].to_vec(), false), (cbor[2..].to_vec(), true)]);
    let mut reader = DirectCborReader::new(vec![0; 4]);
    assert!(matches!(read::<String>(&mut reader, &mut source), Err(Error::BufferTooSmall)));
}

#[test]
fn empty_completed_source_gives_no_item() {
    let mut source = Chunks::new(vec![(Vec::new(), true)]);
    let mut reader = DirectCborReader::new(vec![0; 8]);
    assert!(read::<u8>(&mut reader, &mut source).unwrap().is_none());
}

#[test]
fn step_by_step_buffering() {
    let mut reader = DirectCborReader::new(vec![0; 4]);
    assert!(!reader.has_handle());
    assert!(matches!(reader.read_with_start(), DirectAction::ReadHandle));
    assert!(matches!(reader.read_with_handle(vec![0x01, 0x02], false), DirectAction::ReadHandle));
    assert!(reader.has_handle());
    assert_eq!(&[0x01, 0x02], reader.buffered_bytes());
    assert_eq!(0, reader.handle_bytes().len());
    assert!(matches!(reader.read_with_handle(vec![0x03], true), DirectAction::DecodeBuffered));
    assert_eq!(&[0x01, 0x02, 0x03], reader.buffered_bytes());
    assert!(matches!(reader.read_with_buffered(Ok(Some(1))), DirectAction::Item));
    assert_eq!(&[0x02, 0x03], reader.buffered_bytes());
    assert_eq!(1, reader.decoded_position());
    assert_eq!(3, reader.read_position());
    assert!(matches!(reader.read_with_start(), DirectAction::DecodeBuffered));
    assert!(matches!(reader.read_with_buffered(Err(Error::BufferTooSmall)), DirectAction::Fail(Error::BufferTooSmall)));
    // the source is done: needing more bytes ends inside the item
    assert!(matches!(reader.read_with_buffered(Ok(None)), DirectAction::Fail(Error::UnexpectedEof)));
    assert_eq!(&[0x02, 0x03], reader.buffered_bytes());
    assert_eq!(0, reader.decoded_position());
}

#[test]
fn chunk_that_does_not_fit_is_decoded_in_place_then_moved() {
    let mut reader = DirectCborReader::new(vec![0; 2]);
    assert!(matches!(reader.read_with_handle(vec![1, 2, 3], false), DirectAction::DecodeHandle));
    assert_eq!(0, reader.buffered_bytes().len());
    assert_eq!(&[1, 2, 3], reader.handle_bytes());
    assert!(matches!(reader.read_with_handle_decoded(Ok(Some(1))), DirectAction::Item));
    assert_eq!(&[2, 3], reader.handle_bytes());
    assert!(matches!(reader.read_with_handle_decoded(Ok(None)), DirectAction::ReadHandle));
    assert_eq!(&[2, 3], reader.buffered_bytes());
    assert_eq!(0, reader.handle_bytes().len());
}

#[test]
fn rest_of_chunk_larger_than_buffer_is_buffer_too_small() {
    let mut reader = DirectCborReader::new(vec![0; 2]);
    assert!(matches!(reader.read_with_handle(vec![1, 2, 3], false), DirectAction::DecodeHandle));
    assert!(matches!(reader.read_with_handle_decoded(Ok(None)), DirectAction::Fail(Error::BufferTooSmall)));
}

#[test]
fn spanning_moves_what_fits_of_the_chunk_into_the_buffer() {
    let mut reader = DirectCborReader::new(vec![0; 4]);
    assert!(matches!(reader.read_with_handle(vec![0x19, 0x01], false), DirectAction::ReadHandle));
    assert!(matches!(reader.read_with_handle(vec![0x00, 0x05, 0x06], false), DirectAction::DecodeBuffered));
    assert!(matches!(reader.read_with_buffered(Ok(None)), DirectAction::DecodeBuffered));
    assert_eq!(&[0x19, 0x01, 0x00, 0x05], reader.buffered_bytes());
    assert_eq!(&[0x06], reader.handle_bytes());
    assert!(matches!(reader.read_with_buffered(Ok(Some(3))), DirectAction::Item));
    assert_eq!(&[0x05], reader.buffered_bytes());
}

#[test]
fn full_buffer_that_still_needs_bytes_is_buffer_too_small() {
    let mut reader = DirectCborReader::new(vec![0; 2]);
    assert!(matches!(reader.read_with_handle(vec![0x78, 0x05], false), DirectAction::ReadHandle));
    assert!(matches!(reader.read_with_handle(vec![0x61, 0x62, 0x63], false), DirectAction::DecodeBuffered));
    assert!(matches!(reader.read_with_buffered(Ok(None)), DirectAction::Fail(Error::BufferTooSmall)));
}

#[test]
fn handle_reports_its_bytes() {
    let h = Handle::new(vec![4, 5], true);
    assert_eq!(&[4, 5], h.as_slice());
}
