//! The handle on an authority file: its bytes, and the lock that guards
//! them.
//!
//! The handle works on the bytes of the file as a stream. Every operation
//! seeks for itself, so the position of the stream between operations
//! carries no meaning. A record that cannot be written leaves the file as it
//! was: the records are encoded before the first byte of the file is
//! touched.

use crate::authority::{
    all_canonical, all_fit, canonical_entries, decode_all, encode_all, first_oversized,
    lemma_authority_encodes_back, lemma_authority_round_trip, lemma_decode_all_behind,
    lemma_emitted_all_when_fit, lemma_first_oversized, Authority,
};
use crate::encoding::{CodecError, EntryView};
use crate::lock::{Lock, LockView};
use crate::stream::ByteStream;
use vstd::prelude::*;

verus! {

/// An authority file as a mathematical value.
pub struct AuthorityFileView {
    /// The bytes of the file.
    pub content: Seq<u8>,
    /// The lock that the handle owns, if it owns one.
    pub lock: Option<LockView>,
}

impl AuthorityFileView {
    /// What reading the file gives.
    pub open spec fn get(self) -> Result<Seq<EntryView>, CodecError> {
        decode_all(self.content).outcome
    }

    /// Whether `entries` can be written, and if not, why.
    pub open spec fn accepts(entries: Seq<EntryView>) -> Result<(), CodecError> {
        match first_oversized(entries) {
            None => Ok(()),
            Some(field) => Err(CodecError::FieldTooLong(field)),
        }
    }

    /// The file after its content has been replaced by `entries`: it holds
    /// their encoding and nothing else. Records that cannot be written
    /// leave the file as it is.
    pub open spec fn set(self, entries: Seq<EntryView>) -> AuthorityFileView {
        if first_oversized(entries) is None {
            AuthorityFileView { content: encode_all(entries), ..self }
        } else {
            self
        }
    }

    /// The file after `entries` have been put behind its content. Records
    /// that cannot be written leave the file as it is.
    pub open spec fn append(self, entries: Seq<EntryView>) -> AuthorityFileView {
        if first_oversized(entries) is None {
            AuthorityFileView { content: self.content + encode_all(entries), ..self }
        } else {
            self
        }
    }
}

/// A file that has been set reads as what it was set to, whatever it held
/// before and however long that was: its size is that of the new content.
/// Setting it again to the same changes nothing. Each record reads with the
/// canonical family of its code, so records with canonical families read
/// unchanged.
pub proof fn lemma_set_then_get(file: AuthorityFileView, entries: Seq<EntryView>)
    requires
        all_fit(entries),
    ensures
        AuthorityFileView::accepts(entries) is Ok,
        file.set(entries).get() == Ok::<Seq<EntryView>, CodecError>(canonical_entries(entries)),
        all_canonical(entries) ==> file.set(entries).get() == Ok::<Seq<EntryView>, CodecError>(
            entries,
        ),
        file.set(entries).content.len() == encode_all(entries).len(),
        file.set(entries).set(entries) == file.set(entries),
        file.set(entries).lock == file.lock,
{
    lemma_first_oversized(entries);
    lemma_authority_round_trip(entries);
}

/// Records that are appended to a file are read behind the records that
/// were there, and these stay as they were.
pub proof fn lemma_append_then_get(file: AuthorityFileView, entries: Seq<EntryView>)
    requires
        file.get() is Ok,
        all_fit(entries),
    ensures
        AuthorityFileView::accepts(entries) is Ok,
        file.append(entries).get() == Ok::<Seq<EntryView>, CodecError>(
            file.get()->Ok_0 + canonical_entries(entries),
        ),
{
    let before = file.get()->Ok_0;
    lemma_first_oversized(entries);
    lemma_authority_encodes_back(file.content);
    lemma_decode_all_behind(before, encode_all(entries));
    lemma_authority_round_trip(entries);
    assert(canonical_entries(before) =~= before);
}

/// A file that is set to what was read from it stays as it is, byte for
/// byte.
pub proof fn lemma_get_then_set(file: AuthorityFileView)
    requires
        file.get() is Ok,
    ensures
        AuthorityFileView::accepts(file.get()->Ok_0) is Ok,
        file.set(file.get()->Ok_0) == file,
{
    lemma_authority_encodes_back(file.content);
    lemma_first_oversized(file.get()->Ok_0);
}

/// An open authority file, with the lock on it where it was opened under
/// one. A handle is for one thread at a time.
pub struct AuthorityFile {
    file: ByteStream,
    lock: Option<Lock>,
}

impl View for AuthorityFile {
    type V = AuthorityFileView;

    closed spec fn view(&self) -> AuthorityFileView {
        AuthorityFileView {
            content: self.file@.bytes,
            lock: match self.lock {
                Some(lock) => Some(lock@),
                None => None,
            },
        }
    }
}

/// The records encoded into the bytes of a file of their own, or the error
/// of the first that cannot be written.
fn encode(authority: &Authority) -> (r: Result<Vec<u8>, CodecError>)
    ensures
        match first_oversized(authority@) {
            None => r matches Ok(bytes) && bytes@ == encode_all(authority@),
            Some(field) => r == Err::<Vec<u8>, CodecError>(CodecError::FieldTooLong(field)),
        },
{
    let mut scratch = ByteStream::new(Vec::new());
    proof {
        lemma_first_oversized(authority@);
        if all_fit(authority@) {
            lemma_emitted_all_when_fit(authority@);
        }
    }
    authority.write_to(&mut scratch)?;
    Ok(scratch.into_bytes())
}

impl AuthorityFile {
    /// The handle on `file`, which was opened under `lock`. The handle owns
    /// both from here on.
    pub fn from_existing(file: ByteStream, lock: Lock) -> (handle: Self)
        ensures
            handle@ == (AuthorityFileView { content: file@.bytes, lock: Some(lock@) }),
    {
        AuthorityFile { file, lock: Some(lock) }
    }

    /// The handle on `file` without a lock. The caller answers for it that
    /// nobody else writes the file meanwhile.
    pub fn from_existing_unlocked(file: ByteStream) -> (handle: Self)
        ensures
            handle@ == (AuthorityFileView { content: file@.bytes, lock: None }),
    {
        AuthorityFile { file, lock: None }
    }

    /// Gives the handle up for the bytes of the file and the lock, which
    /// the caller has to release.
    pub fn into_parts(self) -> (parts: (Vec<u8>, Option<Lock>))
        ensures
            (AuthorityFileView {
                content: parts.0@,
                lock: match parts.1 {
                    Some(lock) => Some(lock@),
                    None => None,
                },
            }) == self@,
    {
        (self.file.into_bytes(), self.lock)
    }

    /// Reads the whole file. The file and the lock stay as they are.
    pub fn get(&mut self) -> (r: Result<Authority, CodecError>)
        ensures
            final(self)@ == old(self)@,
            match old(self)@.get() {
                Ok(entries) => r matches Ok(authority) && authority@ == entries,
                Err(e) => r == Err::<Authority, CodecError>(e),
            },
    {
        self.file.rewind();
        assert(self.file@.remaining() =~= self.file@.bytes);
        Authority::read_from(&mut self.file)
    }

    /// Replaces the content of the file by `authority`. The file is cut to
    /// the length of the new content, so that nothing of the old content
    /// stays behind it. Where a record cannot be written, the file stays as
    /// it was.
    pub fn set(&mut self, authority: Authority) -> (r: Result<(), CodecError>)
        ensures
            r == AuthorityFileView::accepts(authority@),
            final(self)@ == old(self)@.set(authority@),
    {
        let bytes = encode(&authority)?;
        self.file.rewind();
        self.file.write_all(bytes.as_slice());
        self.file.truncate();
        assert(self.file@.bytes =~= bytes@);
        Ok(())
    }

    /// Puts the records of `authority` behind the content of the file,
    /// which is neither read nor checked. Where a record cannot be written,
    /// the file stays as it was.
    pub fn append(&mut self, authority: Authority) -> (r: Result<(), CodecError>)
        ensures
            r == AuthorityFileView::accepts(authority@),
            final(self)@ == old(self)@.append(authority@),
    {
        let bytes = encode(&authority)?;
        self.file.seek_to_end();
        self.file.write_all(bytes.as_slice());
        assert(self.file@.bytes =~= old(self)@.content + bytes@);
        Ok(())
    }
}

} // verus!
