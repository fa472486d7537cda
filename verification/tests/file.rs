use xauthority::{
    Acquisition, Authority, AuthorityFile, ByteStream, CodecError, Family, Field, FsOutcome, Lock,
    XAuthorityEntry,
};

fn entry(tag: u8) -> XAuthorityEntry {
    XAuthorityEntry {
        family: Family::Wild,
        address: vec![127, 0, 0, 2],
        display_number: format!("{}", tag),
        auth_name: "MIT-MAGIC-COOKIE-1".to_string(),
        auth_data: vec![tag; 16],
    }
}

fn authority(tags: &[u8]) -> Authority {
    Authority::new(Some(tags.iter().map(|tag| entry(*tag)).collect()))
}

fn bytes_of(authority: &Authority) -> Vec<u8> {
    let mut stream = ByteStream::new(Vec::new());
    authority.write_to(&mut stream).unwrap();
    stream.into_bytes()
}

fn empty_file() -> AuthorityFile {
    AuthorityFile::from_existing_unlocked(ByteStream::new(Vec::new()))
}

fn held_lock() -> Lock {
    Acquisition::begin(Some(".Xauthority"))
        .advance(FsOutcome::Done)
        .advance(FsOutcome::Done)
        .into_result()
        .unwrap()
        .unwrap()
}

#[test]
fn get_of_an_empty_file_is_empty() {
    assert_eq!(empty_file().get(), Ok(Authority::new(None)));
}

#[test]
fn set_then_get_gives_the_authority_back() {
    let mut file = empty_file();
    assert_eq!(file.set(authority(&[1, 2, 3])), Ok(()));
    assert_eq!(file.get(), Ok(authority(&[1, 2, 3])));
    assert_eq!(file.get(), Ok(authority(&[1, 2, 3])));
}

#[test]
fn set_twice_is_set_once() {
    let mut file = empty_file();
    file.set(authority(&[1, 2])).unwrap();
    file.set(authority(&[1, 2])).unwrap();
    assert_eq!(file.get(), Ok(authority(&[1, 2])));
    assert_eq!(file.into_parts().0, bytes_of(&authority(&[1, 2])));
}

#[test]
fn set_of_shorter_content_leaves_nothing_behind() {
    let mut file = empty_file();
    file.set(authority(&[1, 2, 3])).unwrap();
    file.set(authority(&[9])).unwrap();
    assert_eq!(file.get(), Ok(authority(&[9])));
    let (bytes, _) = file.into_parts();
    assert_eq!(bytes.len(), bytes_of(&authority(&[9])).len());
    assert_eq!(bytes, bytes_of(&authority(&[9])));
}

#[test]
fn set_of_nothing_empties_the_file() {
    let mut file = empty_file();
    file.set(authority(&[1, 2, 3])).unwrap();
    file.set(Authority::new(None)).unwrap();
    assert_eq!(file.get(), Ok(Authority::new(None)));
    assert_eq!(file.into_parts().0, Vec::<u8>::new());
}

#[test]
fn set_of_longer_content_replaces_all() {
    let mut file = empty_file();
    file.set(authority(&[1])).unwrap();
    file.set(authority(&[2, 3, 4])).unwrap();
    assert_eq!(file.get(), Ok(authority(&[2, 3, 4])));
}

#[test]
fn set_replaces_content_that_was_no_authority() {
    let mut file = AuthorityFile::from_existing_unlocked(ByteStream::new(vec![0xFF; 100]));
    assert_eq!(file.get(), Err(CodecError::UnexpectedEof));
    file.set(authority(&[5])).unwrap();
    assert_eq!(file.get(), Ok(authority(&[5])));
}

#[test]
fn set_that_cannot_be_written_leaves_the_file() {
    let mut file = empty_file();
    file.set(authority(&[1, 2])).unwrap();
    let mut bad = entry(3);
    bad.address = vec![0; 65536];
    let rejected = Authority::new(Some(vec![entry(7), bad]));
    assert_eq!(file.set(rejected), Err(CodecError::FieldTooLong(Field::Address)));
    assert_eq!(file.get(), Ok(authority(&[1, 2])));
    assert_eq!(file.into_parts().0, bytes_of(&authority(&[1, 2])));
}

#[test]
fn append_puts_records_behind() {
    let mut file = empty_file();
    file.set(authority(&[1])).unwrap();
    assert_eq!(file.append(authority(&[2, 3])), Ok(()));
    assert_eq!(file.get(), Ok(authority(&[1, 2, 3])));
    assert_eq!(file.append(Authority::new(None)), Ok(()));
    assert_eq!(file.get(), Ok(authority(&[1, 2, 3])));
}

#[test]
fn append_after_get_goes_to_the_end() {
    let mut file = AuthorityFile::from_existing_unlocked(ByteStream::new(bytes_of(&authority(
        &[1, 2],
    ))));
    assert_eq!(file.get(), Ok(authority(&[1, 2])));
    file.append(authority(&[3])).unwrap();
    assert_eq!(file.into_parts().0, bytes_of(&authority(&[1, 2, 3])));
}

#[test]
fn append_does_not_check_what_is_there() {
    let mut file = AuthorityFile::from_existing_unlocked(ByteStream::new(vec![0x01]));
    assert_eq!(file.append(authority(&[4])), Ok(()));
    let mut expected = vec![0x01];
    expected.extend_from_slice(&bytes_of(&authority(&[4])));
    assert_eq!(file.into_parts().0, expected);
}

#[test]
fn append_that_cannot_be_written_leaves_the_file() {
    let mut file = empty_file();
    file.set(authority(&[1])).unwrap();
    let mut bad = entry(3);
    bad.auth_data = vec![0; 65536];
    assert_eq!(
        file.append(Authority::new(Some(vec![bad]))),
        Err(CodecError::FieldTooLong(Field::AuthData))
    );
    assert_eq!(file.into_parts().0, bytes_of(&authority(&[1])));
}

#[test]
fn get_reads_from_the_start_wherever_the_stream_stands() {
    let mut stream = ByteStream::new(bytes_of(&authority(&[1, 2])));
    stream.seek_to_end();
    let mut file = AuthorityFile::from_existing_unlocked(stream);
    assert_eq!(file.get(), Ok(authority(&[1, 2])));
}

#[test]
fn handle_keeps_its_lock() {
    let mut file = AuthorityFile::from_existing(ByteStream::new(Vec::new()), held_lock());
    file.set(authority(&[1])).unwrap();
    assert_eq!(file.get(), Ok(authority(&[1])));
    let (bytes, lock) = file.into_parts();
    assert_eq!(bytes, bytes_of(&authority(&[1])));
    assert_eq!(lock, Some(held_lock()));
}

#[test]
fn handle_without_lock_has_none() {
    let (_, lock) = empty_file().into_parts();
    assert_eq!(lock, None);
}

#[test]
fn set_of_what_was_read_leaves_the_bytes() {
    let bytes = bytes_of(&authority(&[3, 1, 2]));
    let mut file = AuthorityFile::from_existing_unlocked(ByteStream::new(bytes.clone()));
    let read = file.get().unwrap();
    assert_eq!(file.set(read), Ok(()));
    assert_eq!(file.into_parts().0, bytes);
}
