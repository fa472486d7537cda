use xauthority::{Authority, ByteStream, CodecError, Family, Field, XAuthorityEntry};

fn entry(tag: u8) -> XAuthorityEntry {
    XAuthorityEntry {
        family: Family::Local,
        address: vec![tag; 3],
        display_number: format!("{}", tag),
        auth_name: "MIT-MAGIC-COOKIE-1".to_string(),
        auth_data: vec![tag; 16],
    }
}

fn write(authority: &Authority) -> Vec<u8> {
    let mut stream = ByteStream::new(Vec::new());
    authority.write_to(&mut stream).unwrap();
    stream.into_bytes()
}

fn read(bytes: Vec<u8>) -> Result<Authority, CodecError> {
    let mut stream = ByteStream::new(bytes);
    Authority::read_from(&mut stream)
}

fn entries_of(authority: Authority) -> Vec<XAuthorityEntry> {
    authority.into_iter().collect()
}

#[test]
fn new_authority_without_entries_is_empty() {
    assert_eq!(entries_of(Authority::new(None)), Vec::new());
    assert_eq!(entries_of(Authority::new(Some(Vec::new()))), Vec::new());
}

#[test]
fn new_authority_keeps_its_entries_in_order() {
    let authority = Authority::new(Some(vec![entry(3), entry(1), entry(2)]));
    assert_eq!(entries_of(authority), vec![entry(3), entry(1), entry(2)]);
}

#[test]
fn add_entry_appends() {
    let mut authority = Authority::new(Some(vec![entry(1)]));
    authority.add_entry(entry(2));
    authority.add_entry(entry(0));
    assert_eq!(entries_of(authority), vec![entry(1), entry(2), entry(0)]);
}

#[test]
fn add_entry_keeps_duplicates() {
    let mut authority = Authority::new(None);
    authority.add_entry(entry(1));
    authority.add_entry(entry(1));
    assert_eq!(entries_of(authority), vec![entry(1), entry(1)]);
}

#[test]
fn empty_authority_is_an_empty_file() {
    assert_eq!(write(&Authority::new(None)), Vec::<u8>::new());
    assert_eq!(read(Vec::new()), Ok(Authority::new(None)));
}

#[test]
fn file_is_the_entries_one_after_the_other() {
    let mut expected = Vec::new();
    for tag in [1u8, 2, 3] {
        let mut stream = ByteStream::new(Vec::new());
        entry(tag).write_to(&mut stream).unwrap();
        expected.extend_from_slice(&stream.into_bytes());
    }
    let authority = Authority::new(Some(vec![entry(1), entry(2), entry(3)]));
    assert_eq!(write(&authority), expected);
}

#[test]
fn authority_round_trips_in_order() {
    let authority = Authority::new(Some(vec![entry(10), entry(11), entry(12)]));
    let read_back = read(write(&authority)).unwrap();
    assert_eq!(entries_of(read_back), vec![entry(10), entry(11), entry(12)]);
}

#[test]
fn authority_with_duplicates_round_trips() {
    let authority = Authority::new(Some(vec![entry(5), entry(5), entry(4), entry(5)]));
    assert_eq!(read(write(&authority)), Ok(authority));
}

#[test]
fn read_takes_the_whole_stream() {
    let authority = Authority::new(Some(vec![entry(1), entry(2)]));
    let mut stream = ByteStream::new(write(&authority));
    assert_eq!(Authority::read_from(&mut stream), Ok(authority));
    assert_eq!(stream.position(), stream.len());
}

#[test]
fn read_starts_at_the_position() {
    let first = Authority::new(Some(vec![entry(1)]));
    let second = Authority::new(Some(vec![entry(2), entry(3)]));
    let skip = write(&first).len();
    let mut bytes = write(&first);
    bytes.extend_from_slice(&write(&second));
    let mut stream = ByteStream::new(bytes);
    assert!(stream.read_exact(skip).is_some());
    assert_eq!(Authority::read_from(&mut stream), Ok(second));
}

#[test]
fn broken_record_fails_the_whole_read() {
    let authority = Authority::new(Some(vec![entry(1), entry(2)]));
    let mut bytes = write(&authority);
    bytes.pop();
    assert_eq!(read(bytes), Err(CodecError::UnexpectedEof));
}

#[test]
fn stray_byte_behind_the_records_fails_the_read() {
    let mut bytes = write(&Authority::new(Some(vec![entry(1)])));
    bytes.push(0);
    assert_eq!(read(bytes), Err(CodecError::UnexpectedEof));
}

#[test]
fn invalid_text_fails_the_whole_read() {
    let mut bytes = write(&Authority::new(Some(vec![entry(1)])));
    bytes.extend_from_slice(&[0x01, 0x00, 0x00, 0x00, 0x00, 0x01, 0xFF]);
    assert_eq!(read(bytes), Err(CodecError::InvalidField(Field::DisplayNumber)));
}

#[test]
fn write_stops_at_the_first_record_that_does_not_fit() {
    let mut bad = entry(2);
    bad.auth_name = "n".repeat(70000);
    let authority = Authority::new(Some(vec![entry(1), bad, entry(3)]));
    let mut stream = ByteStream::new(Vec::new());
    assert_eq!(
        authority.write_to(&mut stream),
        Err(CodecError::FieldTooLong(Field::AuthName))
    );
    let mut expected = write(&Authority::new(Some(vec![entry(1)])));
    expected.extend_from_slice(&[0x01, 0x00, 0x00, 0x03, 2, 2, 2, 0x00, 0x01, b'2']);
    assert_eq!(stream.into_bytes(), expected);
}

#[test]
fn write_goes_over_what_the_stream_holds() {
    let authority = Authority::new(Some(vec![entry(1)]));
    let len = write(&authority).len();
    let mut stream = ByteStream::new(vec![0xEE; len + 4]);
    assert_eq!(authority.write_to(&mut stream), Ok(()));
    assert_eq!(stream.position(), len);
    let bytes = stream.into_bytes();
    assert_eq!(&bytes[..len], &write(&authority)[..]);
    assert_eq!(&bytes[len..], &[0xEE; 4]);
}

#[test]
fn file_that_is_read_is_written_back_byte_for_byte() {
    let mut bytes = Vec::new();
    for (code, address, display) in [(256u16, "a", "0"), (65535, "", "1"), (7, "bc", "")] {
        bytes.extend_from_slice(&code.to_be_bytes());
        bytes.extend_from_slice(&(address.len() as u16).to_be_bytes());
        bytes.extend_from_slice(address.as_bytes());
        bytes.extend_from_slice(&(display.len() as u16).to_be_bytes());
        bytes.extend_from_slice(display.as_bytes());
        bytes.extend_from_slice(&[0x00, 0x00, 0x00, 0x01, 0x2A]);
    }
    let authority = read(bytes.clone()).unwrap();
    assert_eq!(write(&authority), bytes);
    let families: Vec<Family> = entries_of(authority).iter().map(|entry| entry.family).collect();
    assert_eq!(families, vec![Family::Local, Family::Wild, Family::Other(7)]);
}
