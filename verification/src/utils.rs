//! Builders for the authorities of the common set-ups: a server that
//! admits several cookies, and a client with its server on one machine.

use crate::authority::Authority;
use crate::encoding::{EntryView, Family};
use crate::record::{
    cookie_entry, slot_display, wildcard_address, Cookie, DisplayNumber, Entry, Hostname, Scope,
    Target,
};
use vstd::prelude::*;

verus! {

/// A builder of a server's authority as a mathematical value.
pub struct ServerAuthBuilderView {
    /// The records admitted so far.
    pub entries: Seq<EntryView>,
    /// The slot that the next record gets.
    pub free_slot: u16,
}

/// Collects the cookies that a server admits. Each gets the next free slot
/// of the server, from 0 on.
pub struct ServerAuthBuilder {
    inner: Authority,
    free_slot: u16,
}

impl View for ServerAuthBuilder {
    type V = ServerAuthBuilderView;

    closed spec fn view(&self) -> ServerAuthBuilderView {
        ServerAuthBuilderView { entries: self.inner@, free_slot: self.free_slot }
    }
}

impl ServerAuthBuilder {
    /// A builder that has admitted nothing yet.
    pub fn build() -> (builder: Self)
        ensures
            builder@ == (ServerAuthBuilderView { entries: Seq::empty(), free_slot: 0 }),
    {
        ServerAuthBuilder { inner: Authority::new(None), free_slot: 0 }
    }

    /// The slot that the next cookie gets.
    pub fn free_slot(&self) -> (slot: u16)
        ensures
            slot == self@.free_slot,
    {
        self.free_slot
    }

    /// Admits `cookie` for the connections of `scope`, at the next free
    /// slot. The count of slots must not run over: a builder whose free
    /// slot is the last one admits no more.
    pub fn allow(self, cookie: &Cookie, scope: Scope) -> (builder: Self)
        requires
            self@.free_slot < u16::MAX,
        ensures
            builder@ == (ServerAuthBuilderView {
                entries: self@.entries.push(
                    cookie_entry(
                        cookie@,
                        scope.family(),
                        scope.address(),
                        slot_display(self@.free_slot),
                    ),
                ),
                free_slot: (self@.free_slot + 1) as u16,
            }),
    {
        let mut builder = self;
        builder.inner.add_entry(
            Entry::new(cookie, scope, Target::Server { slot: builder.free_slot }),
        );
        builder.free_slot += 1;
        builder
    }

    /// The authority of the records admitted, in the order of their slots.
    pub fn finish(self) -> (authority: Authority)
        ensures
            authority@ == self@.entries,
    {
        self.inner
    }
}

/// Builds the authorities of a server and its clients on one machine, from
/// one cookie and the machine's host name.
pub struct LocalAuthorityBuilder {
    cookie: Cookie,
    hostname: Hostname,
}

impl LocalAuthorityBuilder {
    /// The cookie that both sides share.
    pub closed spec fn cookie(&self) -> Seq<u8> {
        self.cookie@
    }

    /// The host name of the machine.
    pub closed spec fn hostname(&self) -> Seq<u8> {
        self.hostname@
    }

    /// A builder for the machine `hostname`, whose server and clients share
    /// `cookie`.
    pub fn new(cookie: Cookie, hostname: Hostname) -> (builder: Self)
        ensures
            builder.cookie() == cookie@,
            builder.hostname() == hostname@,
    {
        LocalAuthorityBuilder { cookie, hostname }
    }

    /// A server's builder that has admitted the cookie for local
    /// connections, at slot 0.
    pub fn build_server(&self) -> (builder: ServerAuthBuilder)
        ensures
            builder@ == (ServerAuthBuilderView {
                entries: seq![
                    cookie_entry(self.cookie(), Family::Local, self.hostname(), slot_display(0)),
                ],
                free_slot: 1,
            }),
    {
        ServerAuthBuilder::build().allow(&self.cookie, Scope::Local(self.hostname.clone()))
    }

    /// The authority of a client of `display`: the record bound to the host
    /// name first, then the one that matches any address.
    pub fn client(self, display: DisplayNumber) -> (authority: Authority)
        ensures
            authority@ == seq![
                cookie_entry(self.cookie(), Family::Local, self.hostname(), display@),
                cookie_entry(self.cookie(), Family::Wild, wildcard_address(), display@),
            ],
    {
        let entry_any = Entry::new(
            &self.cookie,
            Scope::Any,
            Target::Client { display_number: display.clone() },
        );
        let entry_local = Entry::new(
            &self.cookie,
            Scope::Local(self.hostname),
            Target::Client { display_number: display },
        );
        Authority::new(Some(vec![entry_local, entry_any]))
    }
}

} // verus!
