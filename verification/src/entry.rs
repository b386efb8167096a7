//! Log entries and the application data they carry.

use crate::log_id::LogId;
use crate::log_id::NodeId;
use crate::membership::MembershipConfig;
use vstd::prelude::*;

verus! {

/// An update of one client's status.
#[derive(Debug, PartialEq, Eq)]
pub struct ClientRequest {
    /// The id of the client that sent the request.
    pub client: String,
    /// The serial number of the request; a client's repeated request
    /// carries the serial of the first.
    pub serial: u64,
    /// The client's new status.
    pub status: String,
}

/// The answer to a `ClientRequest`: the status the client had before.
#[derive(Debug, PartialEq, Eq)]
pub struct ClientResponse(Option<String>);

/// What a log entry carries.
#[derive(Debug, PartialEq, Eq)]
pub enum EntryPayload {
    /// Nothing; a new leader appends such an entry to commit in its own term.
    Blank,
    /// Application data.
    Normal(ClientRequest),
    /// A new voter set.
    Membership(MembershipConfig),
}

/// One record of the replicated log.
#[derive(Debug, PartialEq, Eq)]
pub struct Entry {
    pub log_id: LogId,
    pub payload: EntryPayload,
}

/// What a `ClientRequest` stands for in contracts.
pub struct ClientRequestView {
    pub client: Seq<char>,
    pub serial: u64,
    pub status: Seq<char>,
}

/// What an `EntryPayload` stands for in contracts.
pub enum PayloadView {
    Blank,
    Normal(ClientRequestView),
    Membership(Set<NodeId>),
}

/// What an `Entry` stands for in contracts.
pub struct EntryView {
    pub log_id: LogId,
    pub payload: PayloadView,
}

impl View for ClientRequest {
    type V = ClientRequestView;

    open spec fn view(&self) -> ClientRequestView {
        ClientRequestView { client: self.client@, serial: self.serial, status: self.status@ }
    }
}

impl View for ClientResponse {
    type V = Option<Seq<char>>;

    closed spec fn view(&self) -> Option<Seq<char>> {
        match self.0 {
            Some(s) => Some(s@),
            None => None,
        }
    }
}

impl View for EntryPayload {
    type V = PayloadView;

    open spec fn view(&self) -> PayloadView {
        match self {
            EntryPayload::Blank => PayloadView::Blank,
            EntryPayload::Normal(req) => PayloadView::Normal(req@),
            EntryPayload::Membership(m) => PayloadView::Membership(m@),
        }
    }
}

impl View for Entry {
    type V = EntryView;

    open spec fn view(&self) -> EntryView {
        EntryView { log_id: self.log_id, payload: self.payload@ }
    }
}

/// What an optional string stands for in contracts.
pub open spec fn opt_text(s: Option<String>) -> Option<Seq<char>> {
    match s {
        Some(s) => Some(s@),
        None => None,
    }
}

/// A copy of an optional string.
pub fn clone_opt_text(s: &Option<String>) -> (r: Option<String>)
    ensures
        opt_text(r) == opt_text(*s),
{
    match s {
        Some(t) => Some(t.clone()),
        None => None,
    }
}

impl Clone for ClientRequest {
    fn clone(&self) -> (r: ClientRequest)
        ensures
            r@ == self@,
    {
        ClientRequest {
            client: self.client.clone(),
            serial: self.serial,
            status: self.status.clone(),
        }
    }
}

impl ClientResponse {
    /// The answer that names `previous` as the client's earlier status.
    pub fn new(previous: Option<String>) -> (r: ClientResponse)
        ensures
            r@ == opt_text(previous),
    {
        ClientResponse(previous)
    }

    /// The status the client had before, if it had one.
    pub fn previous(&self) -> (r: &Option<String>)
        ensures
            opt_text(*r) == self@,
    {
        &self.0
    }
}

impl Clone for ClientResponse {
    fn clone(&self) -> (r: ClientResponse)
        ensures
            r@ == self@,
    {
        ClientResponse(clone_opt_text(&self.0))
    }
}

impl Clone for EntryPayload {
    fn clone(&self) -> (r: EntryPayload)
        ensures
            r@ == self@,
    {
        match self {
            EntryPayload::Blank => EntryPayload::Blank,
            EntryPayload::Normal(req) => EntryPayload::Normal(req.clone()),
            EntryPayload::Membership(m) => EntryPayload::Membership(m.clone()),
        }
    }
}

impl Clone for Entry {
    fn clone(&self) -> (r: Entry)
        ensures
            r@ == self@,
    {
        Entry { log_id: self.log_id, payload: self.payload.clone() }
    }
}

impl Entry {
    pub fn new(log_id: LogId, payload: EntryPayload) -> (e: Entry)
        ensures
            e@ == (EntryView { log_id, payload: payload@ }),
    {
        Entry { log_id, payload }
    }
}

} // verus!
