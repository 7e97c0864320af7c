use rw::memory::{MemReader, MemWriter};

const TEST_STRING: &str =
    "Hallo allemaal\nWat fijn dat u er bent\nHallo Paul\nWat fijn dat jij er bent";

fn next_line(r: &mut MemReader) -> String {
    String::from_utf8(r.read_line().unwrap()).unwrap()
}

#[test]
fn enum_memory_reader() {
    let mut r = MemReader::memory(Some(TEST_STRING.to_owned()));
    assert_eq!(next_line(&mut r), "Hallo allemaal".to_owned());
    assert_eq!(next_line(&mut r), "Wat fijn dat u er bent".to_owned());
    assert_eq!(next_line(&mut r), "Hallo Paul".to_owned());
    assert_eq!(next_line(&mut r), "Wat fijn dat jij er bent".to_owned());
}

#[test]
fn lib_memory_reader() {
    let mut r = MemReader::memory(Some(TEST_STRING.to_owned()));
    assert_eq!(next_line(&mut r), "Hallo allemaal".to_owned());
    assert_eq!(next_line(&mut r), "Wat fijn dat u er bent".to_owned());
    assert_eq!(next_line(&mut r), "Hallo Paul".to_owned());
    assert_eq!(next_line(&mut r), "Wat fijn dat jij er bent".to_owned());
    assert!(r.read_line().is_none());
}

#[test]
fn enum_write_to_buffer() {
    let mut w = MemWriter::memory();
    w.write("Hallo allemaal\n".as_bytes());
    w.write("Wat fijn dat u er bent\n".as_bytes());
    w.write("Hallo Paul\n".as_bytes());
    w.write("Wat fijn dat jij er bent".as_bytes());
    w.flush();
    let s = w.show_buffer().unwrap();
    assert_eq!(s, TEST_STRING.to_owned());
}

#[test]
fn lib_write_to_buffer() {
    let mut w = MemWriter::memory();
    w.write("Hallo allemaal\n".as_bytes());
    w.write("Wat fijn dat u er bent\n".as_bytes());
    w.write("Hallo Paul\n".as_bytes());
    w.write("Wat fijn dat jij er bent".as_bytes());
    w.flush();
    let s = w.show_buffer().unwrap();
    assert_eq!(s, TEST_STRING.to_owned());
}

#[test]
fn from_string() {
    const INPUT: &str = "Hallo allemaal";
    let mut reader = MemReader::from_string(INPUT);
    let s = String::from_utf8(reader.read(1024)).unwrap();
    assert_eq!(s, *INPUT);
}

#[test]
fn to_string() {
    let mut writer = MemWriter::memory();
    writer.write("Hallo allemaal\n".as_bytes());
    writer.flush();
}

#[test]
fn write_then_extract_two_pieces() {
    // writing "x", then "y", then flushing and extracting yields "xy"
    let mut w = MemWriter::memory();
    assert_eq!(w.write("x".as_bytes()), 1);
    assert_eq!(w.write("y".as_bytes()), 1);
    w.flush();
    assert_eq!(w.show_buffer().unwrap(), "xy".to_owned());
}

#[test]
fn extract_decodes_multibyte_text() {
    let mut w = MemWriter::memory();
    w.write("héllo wörld — ✓".as_bytes());
    w.flush();
    assert_eq!(w.show_buffer().unwrap(), "héllo wörld — ✓".to_owned());
}

#[test]
fn extract_rejects_invalid_encoding() {
    let mut w = MemWriter::memory();
    w.write(&[0x68, 0xff, 0x69]);
    let e = w.show_buffer().unwrap_err();
    assert_eq!(e.kind(), rw::stream_error::StreamErrorKind::InvalidData);
    assert_eq!(e.message(), "stream did not contain valid UTF-8");
}

#[test]
fn read_hands_out_chunks_in_order() {
    let mut r = MemReader::from_string("abcdef");
    assert_eq!(r.read(4), b"abcd".to_vec());
    assert_eq!(r.read(4), b"ef".to_vec());
    assert_eq!(r.read(4), Vec::<u8>::new());
    assert_eq!(r.remaining_len(), 0);
}

#[test]
fn read_zero_sized_request() {
    let mut r = MemReader::from_string("abc");
    assert_eq!(r.read(0), Vec::<u8>::new());
    assert_eq!(r.remaining_len(), 3);
}

#[test]
fn empty_source_reads_nothing() {
    let mut r = MemReader::memory(None);
    assert_eq!(r.read(16), Vec::<u8>::new());
    assert!(r.read_line().is_none());
}

#[test]
fn terminated_final_line_yields_no_extra_line() {
    let mut r = MemReader::from_string("a\n");
    assert_eq!(r.read_line().unwrap(), b"a".to_vec());
    assert!(r.read_line().is_none());
}

#[test]
fn from_bytes_reads_raw_bytes() {
    let mut r = MemReader::from_bytes(vec![1u8, 2, 3]);
    assert_eq!(r.read(3), vec![1u8, 2, 3]);
}
