//! The wire format of one authorization record.
//!
//! A record is a 16-bit family code followed by four fields: address, display
//! number, authorization name and authorization data. Every integer is
//! big-endian; every field is a 16-bit length followed by that many bytes.

use crate::stream::{lemma_write_twice, ByteStream};
use crate::text::text_from_bytes;
use vstd::prelude::*;
use vstd::string::StringExecFns;
use vstd::utf8::{decode_utf8, encode_utf8, valid_utf8};

verus! {

/// The longest field the format can represent, in bytes.
pub const MAX_FIELD_LEN: usize = 65535;

/// The four length-prefixed fields of a record, in wire order.
#[derive(Clone, Copy, Debug, PartialEq, Eq, Structural)]
pub enum Field {
    Address,
    DisplayNumber,
    AuthName,
    AuthData,
}

/// Why a record could not be decoded or encoded.
#[derive(Clone, Copy, Debug, PartialEq, Eq, Structural)]
pub enum CodecError {
    /// The stream ended inside a record.
    UnexpectedEof,
    /// A text field does not hold valid text.
    InvalidField(Field),
    /// A field is longer than `MAX_FIELD_LEN` bytes.
    FieldTooLong(Field),
}

impl Field {
    /// The name of the field as it stands in messages.
    pub open spec fn label(self) -> Seq<char> {
        match self {
            Field::Address => "address"@,
            Field::DisplayNumber => "display_number"@,
            Field::AuthName => "auth_name"@,
            Field::AuthData => "auth_data"@,
        }
    }

    /// The name of the field as it stands in messages.
    pub fn name(&self) -> (name: &'static str)
        ensures
            name@ == self.label(),
    {
        match self {
            Field::Address => "address",
            Field::DisplayNumber => "display_number",
            Field::AuthName => "auth_name",
            Field::AuthData => "auth_data",
        }
    }
}

impl CodecError {
    /// What the error says to a reader: what went wrong, and with which
    /// field.
    pub open spec fn text(self) -> Seq<char> {
        match self {
            CodecError::UnexpectedEof => "failed to fill whole buffer"@,
            CodecError::InvalidField(field) => "Invalid field: "@ + field.label(),
            CodecError::FieldTooLong(field) => "Field too long: "@ + field.label(),
        }
    }

    /// The error in words.
    pub fn message(&self) -> (message: String)
        ensures
            message@ == self.text(),
    {
        match self {
            CodecError::UnexpectedEof => String::from_str("failed to fill whole buffer"),
            CodecError::InvalidField(field) => String::from_str("Invalid field: ").concat(
                field.name(),
            ),
            CodecError::FieldTooLong(field) => String::from_str("Field too long: ").concat(
                field.name(),
            ),
        }
    }
}

/// The two bytes of `value`, most significant first.
pub open spec fn u16_to_be(value: u16) -> Seq<u8> {
    seq![(value / 256) as u8, (value % 256) as u8]
}

/// The integer whose big-endian bytes are `hi`, `lo`.
pub open spec fn u16_from_be(hi: u8, lo: u8) -> u16 {
    (hi * 256 + lo) as u16
}

/// The two bytes of a 16-bit integer give the integer back.
pub proof fn lemma_u16_be_round_trip(value: u16)
    ensures
        u16_to_be(value).len() == 2,
        u16_from_be(u16_to_be(value)[0], u16_to_be(value)[1]) == value,
{
}

/// Two bytes are the bytes of the integer that they give.
pub proof fn lemma_u16_be_bytes(hi: u8, lo: u8)
    ensures
        u16_to_be(u16_from_be(hi, lo)) == seq![hi, lo],
{
}

/// What reading a 16-bit integer from `input` gives: the integer, or nothing
/// where fewer than two bytes are left.
pub open spec fn decode_len(input: Seq<u8>) -> Option<u16> {
    if input.len() >= 2 {
        Some(u16_from_be(input[0], input[1]))
    } else {
        None
    }
}

/// Reads a 16-bit big-endian integer. Where fewer than two bytes are left,
/// nothing is read.
pub fn read_len(reader: &mut ByteStream) -> (r: Result<u16, CodecError>)
    requires
        old(reader).wf(),
    ensures
        final(reader).wf(),
        match decode_len(old(reader)@.remaining()) {
            Some(value) => r == Ok::<u16, CodecError>(value) && final(reader)@ == old(
                reader,
            )@.advance(2),
            None => r == Err::<u16, CodecError>(CodecError::UnexpectedEof) && final(reader)@
                == old(reader)@,
        },
{
    match reader.read_exact(2) {
        Some(buffer) => {
            let hi: u16 = buffer[0] as u16;
            let lo: u16 = buffer[1] as u16;
            Ok(hi * 256 + lo)
        },
        None => Err(CodecError::UnexpectedEof),
    }
}

/// Writes `value` as two big-endian bytes.
pub fn write_len(writer: &mut ByteStream, value: u16)
    requires
        old(writer).wf(),
    ensures
        final(writer).wf(),
        final(writer)@ == old(writer)@.write(u16_to_be(value)),
{
    let bytes: [u8; 2] = [(value / 256) as u8, (value % 256) as u8];
    writer.write_all(bytes.as_slice());
}

/// What a decoding step gave, and how many bytes of the input it took.
pub struct Decoded<T> {
    pub outcome: T,
    pub consumed: int,
}

/// Whether a field of these bytes can be written: its length must fit the
/// 16-bit prefix.
pub open spec fn field_fits(bytes: Seq<u8>) -> bool {
    bytes.len() <= MAX_FIELD_LEN
}

/// A field on the wire: the length of `bytes` in two bytes, then `bytes`.
#[verifier::opaque]
pub open spec fn encode_field(bytes: Seq<u8>) -> Seq<u8>
    recommends
        field_fits(bytes),
{
    u16_to_be(bytes.len() as u16) + bytes
}

/// What reading a field from `input` gives. The field is there when the
/// length prefix is and at least as many bytes follow it as it declares.
/// Where the bytes are missing, the prefix alone has been taken.
#[verifier::opaque]
pub open spec fn decode_field(input: Seq<u8>) -> Decoded<Option<Seq<u8>>> {
    match decode_len(input) {
        None => Decoded { outcome: None, consumed: 0 },
        Some(len) => if input.len() - 2 >= len {
            Decoded { outcome: Some(input.subrange(2, 2 + len)), consumed: 2 + len }
        } else {
            Decoded { outcome: None, consumed: 2 }
        },
    }
}

/// Reading a field takes nothing, the length prefix alone, or the whole
/// field, and never more than the input holds.
pub proof fn lemma_decode_field_consumed(input: Seq<u8>)
    ensures
        0 <= decode_field(input).consumed <= input.len(),
        match decode_field(input).outcome {
            Some(bytes) => decode_field(input).consumed == 2 + bytes.len() && field_fits(bytes),
            None => decode_field(input).consumed == 0 || decode_field(input).consumed == 2,
        },
{
    reveal(decode_field);
}

/// A field that fits is read back whole from the front of any input that
/// starts with its encoding.
pub proof fn lemma_field_round_trip(bytes: Seq<u8>, rest: Seq<u8>)
    requires
        field_fits(bytes),
    ensures
        decode_field(encode_field(bytes) + rest) == (Decoded {
            outcome: Some(bytes),
            consumed: encode_field(bytes).len() as int,
        }),
        encode_field(bytes).len() == 2 + bytes.len(),
        (encode_field(bytes) + rest).skip(encode_field(bytes).len() as int) == rest,
{
    reveal(encode_field);
    reveal(decode_field);
    let input = encode_field(bytes) + rest;
    lemma_u16_be_round_trip(bytes.len() as u16);
    assert(input.subrange(2, 2 + bytes.len() as int) =~= bytes);
}

/// A field that is read encodes to the bytes it was read from.
pub proof fn lemma_field_encodes_back(input: Seq<u8>)
    requires
        decode_field(input).outcome is Some,
    ensures
        encode_field(decode_field(input).outcome->0) == input.subrange(
            0,
            decode_field(input).consumed,
        ),
{
    reveal(encode_field);
    reveal(decode_field);
    lemma_u16_be_bytes(input[0], input[1]);
}

/// Reads one length-prefixed field.
pub fn read_field(reader: &mut ByteStream) -> (r: Result<Vec<u8>, CodecError>)
    requires
        old(reader).wf(),
    ensures
        final(reader).wf(),
        final(reader)@ == old(reader)@.advance(decode_field(old(reader)@.remaining()).consumed),
        match decode_field(old(reader)@.remaining()).outcome {
            Some(bytes) => r matches Ok(buf) && buf@ == bytes,
            None => r == Err::<Vec<u8>, CodecError>(CodecError::UnexpectedEof),
        },
{
    proof {
        reveal(decode_field);
    }
    let len = read_len(reader)?;
    match reader.read_exact(len as usize) {
        Some(buf) => Ok(buf),
        None => Err(CodecError::UnexpectedEof),
    }
}

/// The error for a field whose bytes are not valid text.
pub fn err_invalid_field(field: Field) -> (e: CodecError)
    ensures
        e == CodecError::InvalidField(field),
{
    CodecError::InvalidField(field)
}

/// Writes `bytes` as the field `field`: the length, then the bytes. A field
/// longer than `MAX_FIELD_LEN` is refused, and nothing is written.
pub fn write_field(writer: &mut ByteStream, bytes: &[u8], field: Field) -> (r: Result<
    (),
    CodecError,
>)
    requires
        old(writer).wf(),
    ensures
        final(writer).wf(),
        field_fits(bytes@) ==> r == Ok::<(), CodecError>(()) && final(writer)@ == old(
            writer,
        )@.write(encode_field(bytes@)),
        !field_fits(bytes@) ==> r == Err::<(), CodecError>(CodecError::FieldTooLong(field))
            && final(writer)@ == old(writer)@,
{
    proof {
        reveal(encode_field);
    }
    if bytes.len() > MAX_FIELD_LEN {
        return Err(CodecError::FieldTooLong(field));
    }
    let prefix: u16 = bytes.len() as u16;
    write_len(writer, prefix);
    writer.write_all(bytes);
    proof {
        lemma_write_twice(old(writer)@, u16_to_be(prefix), bytes@);
    }
    Ok(())
}

/// The family code the format reserves for records bound to the local
/// machine.
pub const FAMILY_LOCAL: u16 = 256;

/// The family code the format reserves for records that match any address.
pub const FAMILY_WILD: u16 = 65535;

/// How the address of a record is to be matched. Codes other than the two
/// reserved ones are kept as they are.
#[derive(Clone, Copy, Debug, PartialEq, Eq, Structural)]
pub enum Family {
    /// The address is the host name of the local machine.
    Local,
    /// The record matches whatever the address of the connection.
    Wild,
    /// Any other code, carried through unchanged.
    Other(u16),
}

impl Family {
    /// The code that stands for this family on the wire.
    pub open spec fn code(self) -> u16 {
        match self {
            Family::Local => FAMILY_LOCAL,
            Family::Wild => FAMILY_WILD,
            Family::Other(code) => code,
        }
    }

    /// The family that a code stands for.
    pub open spec fn from_code(code: u16) -> Family {
        if code == FAMILY_LOCAL {
            Family::Local
        } else if code == FAMILY_WILD {
            Family::Wild
        } else {
            Family::Other(code)
        }
    }

    /// Whether this is the value that decoding gives for its code: `Other`
    /// does not hold a reserved code.
    pub open spec fn is_canonical(self) -> bool {
        self != Family::Other(FAMILY_LOCAL) && self != Family::Other(FAMILY_WILD)
    }

    /// The wire code of the family.
    pub fn encode(&self) -> (code: u16)
        ensures
            code == self.code(),
    {
        match self {
            Family::Local => FAMILY_LOCAL,
            Family::Wild => FAMILY_WILD,
            Family::Other(code) => *code,
        }
    }

    /// The family of a wire code. Every code has one.
    pub fn decode(value: u16) -> (family: Family)
        ensures
            family == Family::from_code(value),
    {
        if value == FAMILY_LOCAL {
            Family::Local
        } else if value == FAMILY_WILD {
            Family::Wild
        } else {
            Family::Other(value)
        }
    }
}

/// Every code decodes to a canonical family that encodes back to the code:
/// the two reserved codes to their families, any other code to itself. A
/// canonical family is what its code decodes to.
pub proof fn lemma_family_round_trip(code: u16, family: Family)
    ensures
        Family::from_code(code).code() == code,
        Family::from_code(code).is_canonical(),
        Family::from_code(FAMILY_LOCAL) == Family::Local,
        Family::from_code(FAMILY_WILD) == Family::Wild,
        code != FAMILY_LOCAL && code != FAMILY_WILD ==> Family::from_code(code) == Family::Other(
            code,
        ),
        Family::from_code(family.code()).code() == family.code(),
        family.is_canonical() <==> Family::from_code(family.code()) == family,
{
}

/// One authorization record.
#[derive(Clone, Debug, PartialEq, Eq)]
pub struct XAuthorityEntry {
    pub family: Family,
    pub address: Vec<u8>,
    pub display_number: String,
    pub auth_name: String,
    pub auth_data: Vec<u8>,
}

/// A record as a mathematical value.
pub struct EntryView {
    pub family: Family,
    pub address: Seq<u8>,
    pub display_number: Seq<char>,
    pub auth_name: Seq<char>,
    pub auth_data: Seq<u8>,
}

impl View for XAuthorityEntry {
    type V = EntryView;

    open spec fn view(&self) -> EntryView {
        EntryView {
            family: self.family,
            address: self.address@,
            display_number: self.display_number@,
            auth_name: self.auth_name@,
            auth_data: self.auth_data@,
        }
    }
}

impl EntryView {
    /// The record with its family replaced by the canonical family of the
    /// same code. This is what the record is read back as.
    pub open spec fn canonical(self) -> EntryView {
        EntryView { family: Family::from_code(self.family.code()), ..self }
    }

    /// The first field, in wire order, that is too long to be written.
    pub open spec fn oversized(self) -> Option<Field> {
        if !field_fits(self.address) {
            Some(Field::Address)
        } else if !field_fits(encode_utf8(self.display_number)) {
            Some(Field::DisplayNumber)
        } else if !field_fits(encode_utf8(self.auth_name)) {
            Some(Field::AuthName)
        } else if !field_fits(self.auth_data) {
            Some(Field::AuthData)
        } else {
            None
        }
    }

    /// Every field is short enough to be written.
    pub open spec fn fits(self) -> bool {
        self.oversized() is None
    }

    /// The record on the wire.
    pub open spec fn encoding(self) -> Seq<u8>
        recommends
            self.fits(),
    {
        u16_to_be(self.family.code()) + encode_field(self.address) + encode_field(
            encode_utf8(self.display_number),
        ) + encode_field(encode_utf8(self.auth_name)) + encode_field(self.auth_data)
    }

    /// Whether the fields that come before `field` on the wire all fit.
    pub open spec fn fits_before(self, field: Field) -> bool {
        match field {
            Field::Address => true,
            Field::DisplayNumber => field_fits(self.address),
            Field::AuthName => field_fits(self.address) && field_fits(
                encode_utf8(self.display_number),
            ),
            Field::AuthData => field_fits(self.address) && field_fits(
                encode_utf8(self.display_number),
            ) && field_fits(encode_utf8(self.auth_name)),
        }
    }

    /// The start of the record on the wire, up to where `field` begins.
    pub open spec fn encoding_before(self, field: Field) -> Seq<u8>
        recommends
            self.fits_before(field),
    {
        let family = u16_to_be(self.family.code());
        let address = encode_field(self.address);
        let display_number = encode_field(encode_utf8(self.display_number));
        let auth_name = encode_field(encode_utf8(self.auth_name));
        match field {
            Field::Address => family,
            Field::DisplayNumber => family + address,
            Field::AuthName => family + address + display_number,
            Field::AuthData => family + address + display_number + auth_name,
        }
    }

    /// The bytes that writing the record puts out: the whole encoding, or,
    /// where a field is too long, the encoding up to the first such field.
    pub open spec fn emitted(self) -> Seq<u8> {
        match self.oversized() {
            Some(field) => self.encoding_before(field),
            None => self.encoding(),
        }
    }
}

/// What reading one record from `input` gives.
///
/// An empty input is the end of the records. Otherwise the family code and
/// the four fields are read in order, and the first failure ends the read:
/// a field whose bytes are missing, or a text field that is not valid text.
pub open spec fn decode_entry(input: Seq<u8>) -> Decoded<Result<Option<EntryView>, CodecError>> {
    let address = decode_field(input.skip(2));
    let at_display = 2 + address.consumed;
    let display = decode_field(input.skip(at_display));
    let at_name = at_display + display.consumed;
    let name = decode_field(input.skip(at_name));
    let at_data = at_name + name.consumed;
    let data = decode_field(input.skip(at_data));
    if input.len() == 0 {
        Decoded { outcome: Ok(None), consumed: 0 }
    } else if input.len() < 2 {
        Decoded { outcome: Err(CodecError::UnexpectedEof), consumed: 0 }
    } else if address.outcome is None {
        Decoded { outcome: Err(CodecError::UnexpectedEof), consumed: at_display }
    } else if display.outcome is None {
        Decoded { outcome: Err(CodecError::UnexpectedEof), consumed: at_name }
    } else if !valid_utf8(display.outcome->0) {
        Decoded { outcome: Err(CodecError::InvalidField(Field::DisplayNumber)), consumed: at_name }
    } else if name.outcome is None {
        Decoded { outcome: Err(CodecError::UnexpectedEof), consumed: at_data }
    } else if !valid_utf8(name.outcome->0) {
        Decoded { outcome: Err(CodecError::InvalidField(Field::AuthName)), consumed: at_data }
    } else if data.outcome is None {
        Decoded { outcome: Err(CodecError::UnexpectedEof), consumed: at_data + data.consumed }
    } else {
        Decoded {
            outcome: Ok(
                Some(
                    EntryView {
                        family: Family::from_code(u16_from_be(input[0], input[1])),
                        address: address.outcome->0,
                        display_number: decode_utf8(display.outcome->0),
                        auth_name: decode_utf8(name.outcome->0),
                        auth_data: data.outcome->0,
                    },
                ),
            ),
            consumed: at_data + data.consumed,
        }
    }
}

/// Skipping a prefix of a concatenation leaves the rest, also behind bytes
/// that were skipped before.
proof fn lemma_skip_prefix(input: Seq<u8>, at: int, prefix: Seq<u8>, rest: Seq<u8>)
    requires
        0 <= at <= input.len(),
        input.skip(at) == prefix + rest,
    ensures
        input.skip(at + prefix.len()) == rest,
{
    assert(input.skip(at + prefix.len()) =~= (prefix + rest).skip(prefix.len() as int));
}

/// What decoding gives on an input that holds a family code and four whole
/// fields, the two text fields valid.
proof fn lemma_decode_whole_entry(
    input: Seq<u8>,
    address: Seq<u8>,
    display: Seq<u8>,
    name: Seq<u8>,
    data: Seq<u8>,
)
    requires
        input.len() >= 2,
        decode_field(input.skip(2)) == (Decoded {
            outcome: Some(address),
            consumed: 2 + address.len() as int,
        }),
        decode_field(input.skip(4 + address.len() as int)) == (Decoded {
            outcome: Some(display),
            consumed: 2 + display.len() as int,
        }),
        decode_field(input.skip(6 + address.len() as int + display.len() as int)) == (Decoded {
            outcome: Some(name),
            consumed: 2 + name.len() as int,
        }),
        decode_field(
            input.skip(8 + address.len() as int + display.len() as int + name.len() as int),
        ) == (Decoded { outcome: Some(data), consumed: 2 + data.len() as int }),
        valid_utf8(display),
        valid_utf8(name),
    ensures
        decode_entry(input) == (Decoded {
            outcome: Ok::<Option<EntryView>, CodecError>(
                Some(
                    EntryView {
                        family: Family::from_code(u16_from_be(input[0], input[1])),
                        address,
                        display_number: decode_utf8(display),
                        auth_name: decode_utf8(name),
                        auth_data: data,
                    },
                ),
            ),
            consumed: 10 + address.len() as int + display.len() as int + name.len() as int
                + data.len() as int,
        }),
{
}

/// Decoding takes a record back out of what encoding wrote, whatever
/// follows it in the input. The family comes back as the canonical family of
/// its code, so a record whose family is canonical comes back unchanged.
pub proof fn lemma_entry_round_trip(entry: EntryView, rest: Seq<u8>)
    requires
        entry.fits(),
    ensures
        decode_entry(entry.encoding() + rest) == (Decoded {
            outcome: Ok::<Option<EntryView>, CodecError>(Some(entry.canonical())),
            consumed: entry.encoding().len() as int,
        }),
        entry.family.is_canonical() ==> entry.canonical() == entry,
        (entry.encoding() + rest).skip(entry.encoding().len() as int) == rest,
        entry.encoding().len() >= 10,
{
    let family = u16_to_be(entry.family.code());
    let display_bytes = encode_utf8(entry.display_number);
    let name_bytes = encode_utf8(entry.auth_name);
    let after_name = encode_field(entry.auth_data) + rest;
    let after_display = encode_field(name_bytes) + after_name;
    let after_address = encode_field(display_bytes) + after_display;
    let after_family = encode_field(entry.address) + after_address;
    let input = entry.encoding() + rest;

    assert(input.skip(0) == family + after_family);
    lemma_skip_prefix(input, 0, family, after_family);
    lemma_field_round_trip(entry.address, after_address);
    lemma_skip_prefix(input, 2, encode_field(entry.address), after_address);
    lemma_field_round_trip(display_bytes, after_display);
    lemma_skip_prefix(
        input,
        4 + entry.address.len() as int,
        encode_field(display_bytes),
        after_display,
    );
    lemma_field_round_trip(name_bytes, after_name);
    lemma_skip_prefix(
        input,
        6 + entry.address.len() as int + display_bytes.len() as int,
        encode_field(name_bytes),
        after_name,
    );
    lemma_field_round_trip(entry.auth_data, rest);
    lemma_skip_prefix(
        input,
        8 + entry.address.len() as int + display_bytes.len() as int + name_bytes.len() as int,
        encode_field(entry.auth_data),
        rest,
    );
    vstd::utf8::encode_utf8_valid_utf8(entry.display_number);
    vstd::utf8::encode_utf8_decode_utf8(entry.display_number);
    vstd::utf8::encode_utf8_valid_utf8(entry.auth_name);
    vstd::utf8::encode_utf8_decode_utf8(entry.auth_name);
    lemma_decode_whole_entry(input, entry.address, display_bytes, name_bytes, entry.auth_data);
    lemma_family_round_trip(entry.family.code(), entry.family);
}

/// A piece of an input is the piece in front of it, seen from where that
/// one starts, followed by the next.
proof fn lemma_subrange_step(input: Seq<u8>, at: int, len: int)
    requires
        0 <= at,
        0 <= len,
        at + len <= input.len(),
    ensures
        input.subrange(0, at + len) == input.subrange(0, at) + input.skip(at).subrange(0, len),
{
}

/// A record that is read encodes to the bytes it was read from: decoding
/// loses nothing, and writing the record again gives the same bytes. The
/// record fits, and its family is canonical.
pub proof fn lemma_entry_encodes_back(input: Seq<u8>)
    requires
        decode_entry(input).outcome matches Ok(Some(_)),
    ensures
        ({
            let decoded = decode_entry(input);
            let entry = decoded.outcome->Ok_0->0;
            &&& entry.fits()
            &&& entry.family.is_canonical()
            &&& entry.encoding() == input.subrange(0, decoded.consumed)
        }),
{
    let entry = decode_entry(input).outcome->Ok_0->0;
    let address = decode_field(input.skip(2));
    let at_display = 2 + address.consumed;
    let display = decode_field(input.skip(at_display));
    let at_name = at_display + display.consumed;
    let name = decode_field(input.skip(at_name));
    let at_data = at_name + name.consumed;
    let data = decode_field(input.skip(at_data));

    lemma_decode_field_consumed(input.skip(2));
    lemma_decode_field_consumed(input.skip(at_display));
    lemma_decode_field_consumed(input.skip(at_name));
    lemma_decode_field_consumed(input.skip(at_data));
    lemma_field_encodes_back(input.skip(2));
    lemma_field_encodes_back(input.skip(at_display));
    lemma_field_encodes_back(input.skip(at_name));
    lemma_field_encodes_back(input.skip(at_data));
    vstd::utf8::decode_utf8_encode_utf8(display.outcome->0);
    vstd::utf8::decode_utf8_encode_utf8(name.outcome->0);
    lemma_family_round_trip(u16_from_be(input[0], input[1]), entry.family);
    lemma_u16_be_bytes(input[0], input[1]);

    lemma_subrange_step(input, 2, address.consumed);
    lemma_subrange_step(input, at_display, display.consumed);
    lemma_subrange_step(input, at_name, name.consumed);
    lemma_subrange_step(input, at_data, data.consumed);
}

/// A field is incomplete where its length prefix is cut short or declares
/// more bytes than follow it.
pub proof fn lemma_field_incomplete(input: Seq<u8>)
    ensures
        decode_field(input).outcome is None <==> input.len() < 2 || input.len() - 2 < u16_from_be(
            input[0],
            input[1],
        ),
{
    reveal(decode_field);
}

/// A length prefix with fewer bytes behind it than it declares is no field.
pub proof fn lemma_field_truncated(declared: u16, tail: Seq<u8>)
    requires
        tail.len() < declared,
    ensures
        decode_field(u16_to_be(declared) + tail) == (Decoded {
            outcome: None::<Seq<u8>>,
            consumed: 2,
        }),
{
    reveal(decode_field);
    lemma_u16_be_round_trip(declared);
}

/// A record is rejected when the input ends inside one of its fields:
/// whichever of the four fields is incomplete, after a family code and
/// whole fields before it, decoding fails with `UnexpectedEof`.
pub proof fn lemma_incomplete_field_rejected(entry: EntryView, field: Field, cut: Seq<u8>)
    requires
        entry.fits_before(field),
        decode_field(cut).outcome is None,
    ensures
        decode_entry(entry.encoding_before(field) + cut).outcome == Err::<
            Option<EntryView>,
            CodecError,
        >(CodecError::UnexpectedEof),
{
    let family = u16_to_be(entry.family.code());
    let display_bytes = encode_utf8(entry.display_number);
    let name_bytes = encode_utf8(entry.auth_name);
    let input = entry.encoding_before(field) + cut;
    vstd::utf8::encode_utf8_valid_utf8(entry.display_number);
    vstd::utf8::encode_utf8_valid_utf8(entry.auth_name);
    match field {
        Field::Address => {
            assert(input.skip(0) == family + cut);
            lemma_skip_prefix(input, 0, family, cut);
        },
        Field::DisplayNumber => {
            let after_family = encode_field(entry.address) + cut;
            assert(input.skip(0) == family + after_family);
            lemma_skip_prefix(input, 0, family, after_family);
            lemma_field_round_trip(entry.address, cut);
            lemma_skip_prefix(input, 2, encode_field(entry.address), cut);
        },
        Field::AuthName => {
            let after_address = encode_field(display_bytes) + cut;
            let after_family = encode_field(entry.address) + after_address;
            assert(input.skip(0) == family + after_family);
            lemma_skip_prefix(input, 0, family, after_family);
            lemma_field_round_trip(entry.address, after_address);
            lemma_skip_prefix(input, 2, encode_field(entry.address), after_address);
            lemma_field_round_trip(display_bytes, cut);
            lemma_skip_prefix(
                input,
                4 + entry.address.len() as int,
                encode_field(display_bytes),
                cut,
            );
        },
        Field::AuthData => {
            let after_display = encode_field(name_bytes) + cut;
            let after_address = encode_field(display_bytes) + after_display;
            let after_family = encode_field(entry.address) + after_address;
            assert(input.skip(0) == family + after_family);
            lemma_skip_prefix(input, 0, family, after_family);
            lemma_field_round_trip(entry.address, after_address);
            lemma_skip_prefix(input, 2, encode_field(entry.address), after_address);
            lemma_field_round_trip(display_bytes, after_display);
            lemma_skip_prefix(
                input,
                4 + entry.address.len() as int,
                encode_field(display_bytes),
                after_display,
            );
            lemma_field_round_trip(name_bytes, cut);
            lemma_skip_prefix(
                input,
                6 + entry.address.len() as int + display_bytes.len() as int,
                encode_field(name_bytes),
                cut,
            );
        },
    }
}

/// A length prefix that declares more bytes than are left makes the record
/// rejected, at whichever of the four fields it stands.
pub proof fn lemma_truncated_field_rejected(
    entry: EntryView,
    field: Field,
    declared: u16,
    tail: Seq<u8>,
)
    requires
        entry.fits_before(field),
        tail.len() < declared,
    ensures
        decode_entry(entry.encoding_before(field) + (u16_to_be(declared) + tail)).outcome == Err::<
            Option<EntryView>,
            CodecError,
        >(CodecError::UnexpectedEof),
{
    lemma_field_truncated(declared, tail);
    lemma_incomplete_field_rejected(entry, field, u16_to_be(declared) + tail);
}

/// Reading a record never takes more than the input holds; a record that
/// is read takes at least the ten bytes of a family code and four empty
/// fields, and the end of the records takes nothing.
pub proof fn lemma_decode_entry_consumed(input: Seq<u8>)
    ensures
        0 <= decode_entry(input).consumed <= input.len(),
        decode_entry(input).outcome matches Ok(Some(_)) ==> decode_entry(input).consumed >= 10,
        decode_entry(input).outcome matches Ok(None) ==> decode_entry(input).consumed == 0,
{
    let address = decode_field(input.skip(2));
    let at_display = 2 + address.consumed;
    let display = decode_field(input.skip(at_display));
    let at_name = at_display + display.consumed;
    let name = decode_field(input.skip(at_name));
    let at_data = at_name + name.consumed;
    if input.len() >= 2 {
        lemma_decode_field_consumed(input.skip(2));
        lemma_decode_field_consumed(input.skip(at_display));
        lemma_decode_field_consumed(input.skip(at_name));
        lemma_decode_field_consumed(input.skip(at_data));
    }
}

/// The end of the records is reported for the empty input and for no other.
/// An input that ends inside the family code is rejected.
pub proof fn lemma_end_of_records(input: Seq<u8>)
    ensures
        decode_entry(input).outcome == Ok::<Option<EntryView>, CodecError>(None) <==> input.len()
            == 0,
        input.len() == 1 ==> decode_entry(input).outcome == Err::<Option<EntryView>, CodecError>(
            CodecError::UnexpectedEof,
        ),
{
}

/// The view of what reading a record returned.
pub open spec fn read_result_view(r: Result<Option<XAuthorityEntry>, CodecError>) -> Result<
    Option<EntryView>,
    CodecError,
> {
    match r {
        Ok(Some(entry)) => Ok(Some(entry@)),
        Ok(None) => Ok(None),
        Err(e) => Err(e),
    }
}

/// Reads one field and takes it as text.
fn read_text_field(reader: &mut ByteStream, field: Field) -> (r: Result<String, CodecError>)
    requires
        old(reader).wf(),
    ensures
        final(reader).wf(),
        final(reader)@ == old(reader)@.advance(decode_field(old(reader)@.remaining()).consumed),
        match decode_field(old(reader)@.remaining()).outcome {
            Some(bytes) => if valid_utf8(bytes) {
                r matches Ok(text) && text@ == decode_utf8(bytes)
            } else {
                r == Err::<String, CodecError>(CodecError::InvalidField(field))
            },
            None => r == Err::<String, CodecError>(CodecError::UnexpectedEof),
        },
{
    let bytes = read_field(reader)?;
    match text_from_bytes(bytes) {
        Some(text) => Ok(text),
        None => Err(err_invalid_field(field)),
    }
}

impl XAuthorityEntry {
    /// Reads one record. `Ok(None)` marks the end of the records: the
    /// stream had nothing left.
    pub fn read_from(reader: &mut ByteStream) -> (r: Result<Option<Self>, CodecError>)
        requires
            old(reader).wf(),
        ensures
            final(reader).wf(),
            final(reader)@ == old(reader)@.advance(decode_entry(old(reader)@.remaining()).consumed),
            read_result_view(r) == decode_entry(old(reader)@.remaining()).outcome,
    {
        let ghost input = old(reader)@.remaining();
        if reader.position() == reader.len() {
            return Ok(None);
        }
        let family = Family::decode(read_len(reader)?);
        assert(reader@.remaining() =~= input.skip(2));
        let ghost at_display = 2 + decode_field(input.skip(2)).consumed;
        proof {
            lemma_decode_field_consumed(input.skip(2));
        }
        let address = read_field(reader)?;
        assert(reader@.remaining() =~= input.skip(at_display));
        let ghost at_name = at_display + decode_field(input.skip(at_display)).consumed;
        proof {
            lemma_decode_field_consumed(input.skip(at_display));
        }
        let display_number = read_text_field(reader, Field::DisplayNumber)?;
        assert(reader@.remaining() =~= input.skip(at_name));
        let ghost at_data = at_name + decode_field(input.skip(at_name)).consumed;
        proof {
            lemma_decode_field_consumed(input.skip(at_name));
        }
        let auth_name = read_text_field(reader, Field::AuthName)?;
        assert(reader@.remaining() =~= input.skip(at_data));
        let auth_data = read_field(reader)?;
        Ok(Some(XAuthorityEntry { family, address, display_number, auth_name, auth_data }))
    }

    /// Writes the record. The first field that is too long ends the write
    /// with an error; what came before it has been written.
    pub fn write_to(&self, writer: &mut ByteStream) -> (r: Result<(), CodecError>)
        requires
            old(writer).wf(),
        ensures
            final(writer).wf(),
            final(writer)@ == old(writer)@.write(self@.emitted()),
            match self@.oversized() {
                None => r == Ok::<(), CodecError>(()),
                Some(field) => r == Err::<(), CodecError>(CodecError::FieldTooLong(field)),
            },
    {
        let ghost start = old(writer)@;
        let ghost family = u16_to_be(self.family.code());
        let ghost address = encode_field(self.address@);
        let ghost display_number = encode_field(encode_utf8(self.display_number@));
        let ghost auth_name = encode_field(encode_utf8(self.auth_name@));
        let ghost auth_data = encode_field(self.auth_data@);
        write_len(writer, self.family.encode());
        write_field(writer, self.address.as_slice(), Field::Address)?;
        proof {
            lemma_write_twice(start, family, address);
        }
        let display_number_bytes = self.display_number.as_str().as_bytes();
        write_field(writer, display_number_bytes, Field::DisplayNumber)?;
        proof {
            lemma_write_twice(start, family + address, display_number);
        }
        let auth_name_bytes = self.auth_name.as_str().as_bytes();
        write_field(writer, auth_name_bytes, Field::AuthName)?;
        proof {
            lemma_write_twice(start, family + address + display_number, auth_name);
        }
        write_field(writer, self.auth_data.as_slice(), Field::AuthData)?;
        proof {
            lemma_write_twice(
                start,
                family + address + display_number + auth_name,
                auth_data,
            );
        }
        Ok(())
    }
}

} // verus!
