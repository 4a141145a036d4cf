use minicbor::encode::write::EndOfSlice;
use minicbor_embedded_io::writer::Cursor;

/// Adapts the library cursor to minicbor's writer interface, as the
/// encoding front end does.
struct Sink<'a>(&'a mut Cursor);

impl minicbor::encode::Write for Sink<'_> {
    type Error = EndOfSlice;

    fn write_all(&mut self, buf: &[u8]) -> Result<(), Self::Error> {
        self.0.write_all(buf)
    }
}

#[test]
fn write_all_appends_at_position() {
    let mut c = Cursor::new(vec![0; 6]);
    c.write_all(&[1, 2]).unwrap();
    c.write_all(&[]).unwrap();
    c.write_all(&[3]).unwrap();
    assert_eq!(3, c.len());
    assert_eq!(3, c.remaining());
    assert_eq!(&[1, 2, 3], c.written());
    assert_eq!(vec![1, 2, 3, 0, 0, 0], c.into_inner());
}

#[test]
fn two_writes_equal_one_write_of_both() {
    let mut a = Cursor::new(vec![9; 5]);
    a.write_all(&[1, 2]).unwrap();
    a.write_all(&[3, 4]).unwrap();
    let mut b = Cursor::new(vec![9; 5]);
    b.write_all(&[1, 2, 3, 4]).unwrap();
    assert_eq!(a.len(), b.len());
    assert_eq!(a.into_inner(), b.into_inner());
}

#[test]
fn write_filling_the_buffer_exactly() {
    let mut c = Cursor::new(vec![0; 3]);
    c.write_all(&[7, 8, 9]).unwrap();
    assert_eq!(0, c.remaining());
    assert_eq!(&[7, 8, 9], c.written());
}

#[test]
fn encoder_output_is_what_the_cursor_holds() {
    let value = ("wmbus", [1u8, 2, 3], true);
    let expected = minicbor::to_vec(&value).unwrap();
    let mut c = Cursor::new(vec![0; 32]);
    minicbor::encode(&value, Sink(&mut c)).unwrap();
    assert_eq!(expected.len(), c.len());
    assert_eq!(expected.as_slice(), c.written());
}

#[test]
fn write_past_the_end_fails_and_changes_nothing() {
    let mut c = Cursor::new(vec![0; 2]);
    assert!(c.write_all(&[1, 2, 3]).is_err());
    assert_eq!(0, c.len());
    c.write_all(&[7]).unwrap();
    assert!(c.write_all(&[8, 9]).is_err());
    assert_eq!(1, c.len());
    assert_eq!(vec![7, 0], c.into_inner());
}

#[test]
fn encoding_larger_than_the_buffer_is_an_encode_error() {
    let mut c = Cursor::new(vec![0; 4]);
    assert!(minicbor::encode("hello", Sink(&mut c)).is_err());
}
