//! Building the records of the one authorization scheme in use: a secret
//! cookie, for a scope of connections and a display.

use crate::encoding::{EntryView, Family, XAuthorityEntry};
use crate::text::{ascii_chars, lemma_ascii_is_utf8, text_from_bytes};
use vstd::prelude::*;
use vstd::slice::slice_to_vec;
use vstd::std_specs::convert::FromSpecImpl;

verus! {

/// The bytes of a host name.
pub type Hostname = Vec<u8>;

/// The name of a display, as it stands in a record.
pub type DisplayNumber = String;

/// An authorization record.
pub type Entry = XAuthorityEntry;

/// The decimal digits of `n` as ASCII bytes, without leading zeros.
pub open spec fn decimal_digits(n: nat) -> Seq<u8>
    decreases n,
{
    if n < 10 {
        seq![(48 + n) as u8]
    } else {
        decimal_digits(n / 10).push((48 + n % 10) as u8)
    }
}

/// The decimal digits of a number are ASCII.
pub proof fn lemma_decimal_digits_ascii(n: nat)
    ensures
        decimal_digits(n).len() >= 1,
        forall|i: int|
            0 <= i < decimal_digits(n).len() ==> 48 <= (#[trigger] decimal_digits(n)[i]) <= 57,
    decreases n,
{
    if n >= 10 {
        lemma_decimal_digits_ascii(n / 10);
    }
}

/// Puts the decimal digits of `n` behind `out`.
fn push_decimal(n: u16, out: &mut Vec<u8>)
    ensures
        final(out)@ == old(out)@ + decimal_digits(n as nat),
    decreases n,
{
    if n >= 10 {
        push_decimal(n / 10, out);
    }
    out.push(48 + (n % 10) as u8);
}

/// The display number of a server's slot: the slot in decimal.
pub open spec fn slot_display(slot: u16) -> Seq<char> {
    ascii_chars(decimal_digits(slot as nat))
}

/// What a record is for: a slot of a server, or a display as a client
/// names it.
pub enum Target {
    /// The slot of a server, counted from 0.
    Server { slot: u16 },
    /// The display under the name by which a client asks for it.
    Client { display_number: DisplayNumber },
}

impl Target {
    /// The display number that stands in the record: the slot in decimal,
    /// or the client's name for the display.
    pub open spec fn display_number(self) -> Seq<char> {
        match self {
            Target::Server { slot } => slot_display(slot),
            Target::Client { display_number } => display_number@,
        }
    }
}

impl From<Target> for String {
    fn from(value: Target) -> (text: String)
        ensures
            text@ == value.display_number(),
    {
        match value {
            Target::Server { slot } => {
                let mut digits: Vec<u8> = Vec::new();
                push_decimal(slot, &mut digits);
                proof {
                    lemma_decimal_digits_ascii(slot as nat);
                    lemma_ascii_is_utf8(digits@);
                }
                text_from_bytes(digits).unwrap()
            },
            Target::Client { display_number } => display_number,
        }
    }
}

/// The conversion is stated on `from` itself, over the view of its result.
impl FromSpecImpl<Target> for String {
    open spec fn obeys_from_spec() -> bool {
        false
    }

    open spec fn from_spec(value: Target) -> String {
        arbitrary()
    }
}

/// The address that a record of any scope carries. No reader matches it
/// against the connection.
pub open spec fn wildcard_address() -> Seq<u8> {
    seq![127u8, 0u8, 0u8, 2u8]
}

/// Which connections a record authorizes.
pub enum Scope {
    /// Those of the machine with this host name.
    Local(Hostname),
    /// All, whatever their address.
    Any,
}

impl Scope {
    /// The family of a record of this scope.
    pub open spec fn family(self) -> Family {
        match self {
            Scope::Local(_) => Family::Local,
            Scope::Any => Family::Wild,
        }
    }

    /// The address of a record of this scope.
    pub open spec fn address(self) -> Seq<u8> {
        match self {
            Scope::Local(hostname) => hostname@,
            Scope::Any => wildcard_address(),
        }
    }
}

impl From<Scope> for (Family, Hostname) {
    fn from(value: Scope) -> (pair: (Family, Hostname))
        ensures
            pair.0 == value.family(),
            pair.1@ == value.address(),
    {
        match value {
            Scope::Local(hostname) => (Family::Local, hostname),
            Scope::Any => (Family::Wild, vec![127, 0, 0, 2]),
        }
    }
}

/// The conversion is stated on `from` itself, over the view of its result.
impl FromSpecImpl<Scope> for (Family, Hostname) {
    open spec fn obeys_from_spec() -> bool {
        false
    }

    open spec fn from_spec(value: Scope) -> (Family, Hostname) {
        arbitrary()
    }
}

/// The name of the authorization scheme under which a cookie is stored.
pub open spec fn cookie_auth_name() -> Seq<char> {
    "MIT-MAGIC-COOKIE-1"@
}

/// A secret of 128 bits that client and server share. It is neither copied
/// nor printed.
pub struct Cookie([u8; 16]);

impl View for Cookie {
    type V = Seq<u8>;

    closed spec fn view(&self) -> Seq<u8> {
        self.0@
    }
}

impl Cookie {
    /// The length of a cookie in bytes.
    pub const BYTES_LEN: usize = 16;

    /// A cookie of these bytes, which the caller drew at random.
    pub fn new(random_bytes: [u8; 16]) -> (cookie: Self)
        ensures
            cookie@ == random_bytes@,
            cookie@.len() == Cookie::BYTES_LEN,
    {
        Cookie(random_bytes)
    }

    /// The name of the scheme and the secret, as they stand in a record.
    pub fn raw_data(&self) -> (data: (String, Vec<u8>))
        ensures
            data.0@ == cookie_auth_name(),
            data.1@ == self@,
            data.1@.len() == Cookie::BYTES_LEN,
    {
        ("MIT-MAGIC-COOKIE-1".to_string(), slice_to_vec(self.0.as_slice()))
    }
}

/// The record that stores the cookie `cookie` for a display.
pub open spec fn cookie_entry(
    cookie: Seq<u8>,
    family: Family,
    address: Seq<u8>,
    display_number: Seq<char>,
) -> EntryView {
    EntryView { family, address, display_number, auth_name: cookie_auth_name(), auth_data: cookie }
}

impl Entry {
    /// The record that lets `cookie` open `target` to the connections of
    /// `scope`.
    pub fn new(cookie: &Cookie, scope: Scope, target: Target) -> (entry: Entry)
        ensures
            entry@ == cookie_entry(
                cookie@,
                scope.family(),
                scope.address(),
                target.display_number(),
            ),
    {
        let (family, address) = scope.into();
        let display_number = target.into();
        let (auth_name, auth_data) = cookie.raw_data();
        XAuthorityEntry { family, address, display_number, auth_name, auth_data }
    }
}

} // verus!
