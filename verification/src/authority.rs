//! The content of an authority file: records in order.
//!
//! The file has no header and no count. Its records follow one another and
//! the end of the stream ends them. Order matters to the readers of the
//! file, and a record may occur more than once.

use crate::encoding::{
    decode_entry, lemma_decode_entry_consumed, lemma_entry_encodes_back, lemma_entry_round_trip,
    CodecError, Decoded, EntryView, Field, XAuthorityEntry,
};
use crate::stream::{lemma_write_twice, ByteStream};
use vstd::prelude::*;
use vstd::std_specs::iter::IteratorSpec;

verus! {

/// The records of `entries` as mathematical values, in the same order.
pub open spec fn entry_views(entries: Seq<XAuthorityEntry>) -> Seq<EntryView> {
    Seq::new(entries.len(), |i: int| entries[i]@)
}

/// Every record can be written.
pub open spec fn all_fit(entries: Seq<EntryView>) -> bool {
    forall|i: int| 0 <= i < entries.len() ==> (#[trigger] entries[i]).fits()
}

/// Every record has the canonical family of its code.
pub open spec fn all_canonical(entries: Seq<EntryView>) -> bool {
    forall|i: int| 0 <= i < entries.len() ==> (#[trigger] entries[i]).family.is_canonical()
}

/// The records as they are read back: each with the canonical family of its
/// code.
pub open spec fn canonical_entries(entries: Seq<EntryView>) -> Seq<EntryView> {
    Seq::new(entries.len(), |i: int| entries[i].canonical())
}

/// The file that holds `entries`: their encodings, one after the other.
pub open spec fn encode_all(entries: Seq<EntryView>) -> Seq<u8>
    recommends
        all_fit(entries),
    decreases entries.len(),
{
    if entries.len() == 0 {
        Seq::empty()
    } else {
        entries[0].encoding() + encode_all(entries.drop_first())
    }
}

/// The field that stops the writing of `entries`: the first field too long
/// in the first record that has one.
pub open spec fn first_oversized(entries: Seq<EntryView>) -> Option<Field>
    decreases entries.len(),
{
    if entries.len() == 0 {
        None
    } else if entries[0].fits() {
        first_oversized(entries.drop_first())
    } else {
        entries[0].oversized()
    }
}

/// The bytes that writing `entries` puts out: every record up to the first
/// that cannot be written, and of that one what comes before its first
/// field too long.
pub open spec fn emitted_all(entries: Seq<EntryView>) -> Seq<u8>
    decreases entries.len(),
{
    if entries.len() == 0 {
        Seq::empty()
    } else if entries[0].fits() {
        entries[0].encoding() + emitted_all(entries.drop_first())
    } else {
        entries[0].emitted()
    }
}

/// What reading a whole file from `input` gives: the records up to the end
/// of the input, or the error of the first record that cannot be read.
pub open spec fn decode_all(input: Seq<u8>) -> Decoded<Result<Seq<EntryView>, CodecError>>
    decreases input.len(),
{
    let first = decode_entry(input);
    match first.outcome {
        Ok(Some(entry)) => {
            proof {
                lemma_decode_entry_consumed(input);
            }
            decode_all(input.skip(first.consumed)).after(seq![entry], first.consumed)
        },
        Ok(None) => Decoded { outcome: Ok(Seq::empty()), consumed: first.consumed },
        Err(e) => Decoded { outcome: Err(e), consumed: first.consumed },
    }
}

impl Decoded<Result<Seq<EntryView>, CodecError>> {
    /// This reading of the rest of a file, behind `entries` that took
    /// `taken` bytes.
    pub open spec fn after(self, entries: Seq<EntryView>, taken: int) -> Self {
        Decoded {
            outcome: match self.outcome {
                Ok(rest) => Ok(entries + rest),
                Err(e) => Err(e),
            },
            consumed: taken + self.consumed,
        }
    }
}

/// Where every record fits, all of them are written.
pub proof fn lemma_emitted_all_when_fit(entries: Seq<EntryView>)
    requires
        all_fit(entries),
    ensures
        emitted_all(entries) == encode_all(entries),
        first_oversized(entries) is None,
    decreases entries.len(),
{
    if entries.len() > 0 {
        lemma_emitted_all_when_fit(entries.drop_first());
    }
}

/// Writing stops with an error exactly where some record does not fit.
pub proof fn lemma_first_oversized(entries: Seq<EntryView>)
    ensures
        first_oversized(entries) is None <==> all_fit(entries),
    decreases entries.len(),
{
    if entries.len() > 0 {
        lemma_first_oversized(entries.drop_first());
        let rest = entries.drop_first();
        if entries[0].fits() && all_fit(rest) {
            assert forall|i: int| 0 <= i < entries.len() implies (#[trigger] entries[i]).fits() by {
                if i > 0 {
                    assert(rest[i - 1].fits());
                }
            }
        }
    }
}

/// A file that is written and read again gives its records back, all of
/// them and in the order in which they were written. Each record comes back
/// with the canonical family of its code, so records with canonical families
/// come back unchanged.
pub proof fn lemma_authority_round_trip(entries: Seq<EntryView>)
    requires
        all_fit(entries),
    ensures
        decode_all(encode_all(entries)) == (Decoded {
            outcome: Ok::<Seq<EntryView>, CodecError>(canonical_entries(entries)),
            consumed: encode_all(entries).len() as int,
        }),
        all_canonical(entries) ==> canonical_entries(entries) == entries,
    decreases entries.len(),
{
    if entries.len() == 0 {
        assert(canonical_entries(entries) =~= Seq::empty());
    } else {
        let first = entries[0];
        let rest = entries.drop_first();
        lemma_entry_round_trip(first, encode_all(rest));
        lemma_authority_round_trip(rest);
        assert(canonical_entries(entries) =~= seq![first.canonical()] + canonical_entries(rest));
    }
}

/// Records in front of an input are read before it: reading what was
/// written, with `rest` behind it, gives the records and then whatever
/// reading `rest` gives.
pub proof fn lemma_decode_all_behind(entries: Seq<EntryView>, rest: Seq<u8>)
    requires
        all_fit(entries),
    ensures
        decode_all(encode_all(entries) + rest) == decode_all(rest).after(
            canonical_entries(entries),
            encode_all(entries).len() as int,
        ),
    decreases entries.len(),
{
    let behind = decode_all(rest);
    if entries.len() == 0 {
        assert(encode_all(entries) + rest =~= rest);
        if behind.outcome is Ok {
            assert(canonical_entries(entries) + behind.outcome->Ok_0 =~= behind.outcome->Ok_0);
        }
    } else {
        let first = entries[0];
        let others = entries.drop_first();
        let tail = encode_all(others) + rest;
        assert(encode_all(entries) + rest =~= first.encoding() + tail);
        lemma_entry_round_trip(first, tail);
        lemma_decode_all_behind(others, rest);
        if behind.outcome is Ok {
            assert(seq![first.canonical()] + (canonical_entries(others) + behind.outcome->Ok_0)
                =~= canonical_entries(entries) + behind.outcome->Ok_0);
        }
    }
}

/// A file that is read encodes to the bytes it was read from: reading loses
/// nothing and takes the whole input, and writing the records again gives
/// the same file. The records fit, and their families are canonical.
pub proof fn lemma_authority_encodes_back(input: Seq<u8>)
    requires
        decode_all(input).outcome is Ok,
    ensures
        ({
            let entries = decode_all(input).outcome->Ok_0;
            &&& all_fit(entries)
            &&& all_canonical(entries)
            &&& encode_all(entries) == input
            &&& decode_all(input).consumed == input.len()
        }),
    decreases input.len(),
{
    let first = decode_entry(input);
    lemma_decode_entry_consumed(input);
    match first.outcome {
        Ok(Some(entry)) => {
            let rest = input.skip(first.consumed);
            let others = decode_all(rest).outcome->Ok_0;
            let entries = seq![entry] + others;
            lemma_entry_encodes_back(input);
            lemma_authority_encodes_back(rest);
            assert(entries.drop_first() =~= others);
        },
        _ => {},
    }
}

/// An ordered sequence of records.
#[derive(Clone, Debug, PartialEq, Eq)]
pub struct Authority(Vec<XAuthorityEntry>);

impl View for Authority {
    type V = Seq<EntryView>;

    closed spec fn view(&self) -> Seq<EntryView> {
        entry_views(self.0@)
    }
}

impl Authority {
    /// An authority that holds `entries`, or none where there are none.
    pub fn new(entries: Option<Vec<XAuthorityEntry>>) -> (authority: Self)
        ensures
            authority@ == match entries {
                Some(entries) => entry_views(entries@),
                None => Seq::empty(),
            },
    {
        match entries {
            Some(entries) => Authority(entries),
            None => Authority(Vec::new()),
        }
    }

    /// Puts `entry` behind the records that are there. The same record may
    /// be added twice.
    pub fn add_entry(&mut self, entry: XAuthorityEntry)
        ensures
            final(self)@ == old(self)@.push(entry@),
    {
        self.0.push(entry);
    }

    /// Reads records up to the end of the stream. The first record that
    /// cannot be read ends the read with its error, and the records read
    /// before it are dropped.
    pub fn read_from(reader: &mut ByteStream) -> (r: Result<Self, CodecError>)
        requires
            old(reader).wf(),
        ensures
            final(reader).wf(),
            final(reader)@ == old(reader)@.advance(decode_all(old(reader)@.remaining()).consumed),
            match decode_all(old(reader)@.remaining()).outcome {
                Ok(entries) => r matches Ok(authority) && authority@ == entries,
                Err(e) => r == Err::<Authority, CodecError>(e),
            },
    {
        let ghost start = old(reader)@;
        let mut buf: Vec<XAuthorityEntry> = Vec::new();
        loop
            invariant
                start == old(reader)@,
                reader.wf(),
                start.pos <= reader@.pos,
                reader@.bytes == start.bytes,
                decode_all(reader@.remaining()).after(
                    entry_views(buf@),
                    reader@.pos - start.pos,
                ) == decode_all(start.remaining()),
            decreases reader@.bytes.len() - reader@.pos,
        {
            let ghost before = reader@;
            let ghost seen = entry_views(buf@);
            proof {
                lemma_decode_entry_consumed(before.remaining());
            }
            match XAuthorityEntry::read_from(reader) {
                Ok(Some(entry)) => {
                    buf.push(entry);
                    proof {
                        let first = decode_entry(before.remaining());
                        let rest = decode_all(reader@.remaining());
                        assert(reader@.remaining() =~= before.remaining().skip(first.consumed));
                        assert(entry_views(buf@) =~= seen.push(entry@));
                        if rest.outcome is Ok {
                            let entries = rest.outcome->Ok_0;
                            assert(seen + (seq![entry@] + entries) =~= seen.push(entry@) + entries);
                        }
                    }
                },
                Ok(None) => {
                    return Ok(Authority(buf));
                },
                Err(e) => {
                    return Err(e);
                },
            }
        }
    }

    /// Writes the records in order. The first record that cannot be written
    /// ends the write with its error; what was written before stays.
    pub fn write_to(&self, writer: &mut ByteStream) -> (r: Result<(), CodecError>)
        requires
            old(writer).wf(),
        ensures
            final(writer).wf(),
            final(writer)@ == old(writer)@.write(emitted_all(self@)),
            match first_oversized(self@) {
                None => r == Ok::<(), CodecError>(()),
                Some(field) => r == Err::<(), CodecError>(CodecError::FieldTooLong(field)),
            },
    {
        let ghost start = old(writer)@;
        let ghost mut written: Seq<u8> = Seq::empty();
        assert(start.write(written) == start) by {
            assert(start.write(written).bytes =~= start.bytes);
        }
        assert(self@.skip(0) =~= self@);
        let mut i: usize = 0;
        while i < self.0.len()
            invariant
                start == old(writer)@,
                i <= self.0@.len(),
                writer.wf(),
                0 <= start.pos <= start.bytes.len(),
                writer@ == start.write(written),
                written + emitted_all(self@.skip(i as int)) == emitted_all(self@),
                first_oversized(self@.skip(i as int)) == first_oversized(self@),
            decreases self.0@.len() - i,
        {
            let ghost rest = self@.skip(i as int);
            let ghost entry = self.0@[i as int]@;
            assert(rest.drop_first() =~= self@.skip(i + 1));
            proof {
                lemma_write_twice(start, written, entry.emitted());
            }
            self.0[i].write_to(writer)?;
            proof {
                written = written + entry.encoding();
            }
            i = i + 1;
        }
        Ok(())
    }
}

impl IntoIterator for Authority {
    type Item = XAuthorityEntry;

    type IntoIter = std::vec::IntoIter<XAuthorityEntry>;

    /// Gives the records out one by one, in their order.
    fn into_iter(self) -> (iter: std::vec::IntoIter<XAuthorityEntry>)
        ensures
            entry_views(iter.remaining()) == self@,
    {
        broadcast use vstd::std_specs::vec::axiom_spec_into_iter;

        self.0.into_iter()
    }
}

} // verus!
