//! The state machine of the in-memory store: the status of each client, and
//! what applying a log entry does to it.

use crate::entry::clone_opt_text;
use crate::entry::ClientRequestView;
use crate::entry::ClientResponse;
use crate::entry::Entry;
use crate::entry::EntryPayload;
use crate::entry::EntryView;
use crate::entry::PayloadView;
use crate::log_id::LogId;
use crate::membership::EffectiveMembership;
use crate::membership::EffectiveMembershipView;
use crate::table::ClientTable;
use vstd::prelude::*;

verus! {

/// The applied state of the store.
#[derive(Debug)]
pub struct MemStoreStateMachine {
    /// The log id of the entry applied last.
    pub last_applied_log: Option<LogId>,
    /// The membership set by the membership entry applied last.
    pub last_membership: Option<EffectiveMembership>,
    /// For each client the serial number of its last request and the answer
    /// that was given to it.
    pub client_serial_responses: ClientTable<(u64, Option<String>)>,
    /// The current status of each client.
    pub client_status: ClientTable<String>,
}

/// What a `MemStoreStateMachine` stands for in contracts.
#[verifier::ext_equal]
pub struct StateMachineView {
    pub last_applied_log: Option<LogId>,
    pub last_membership: Option<EffectiveMembershipView>,
    pub client_serial_responses: Map<Seq<char>, (u64, Option<Seq<char>>)>,
    pub client_status: Map<Seq<char>, Seq<char>>,
}

/// The state machine that has applied nothing.
pub open spec fn empty_state_machine() -> StateMachineView {
    StateMachineView {
        last_applied_log: None,
        last_membership: None,
        client_serial_responses: Map::empty(),
        client_status: Map::empty(),
    }
}

/// `req` repeats the request that its client made last.
pub open spec fn is_repeated(sm: StateMachineView, req: ClientRequestView) -> bool {
    sm.client_serial_responses.contains_key(req.client) && sm.client_serial_responses[req.client].0
        == req.serial
}

/// The status on record for `client`, if there is one.
pub open spec fn status_of(sm: StateMachineView, client: Seq<char>) -> Option<Seq<char>> {
    if sm.client_status.contains_key(client) {
        Some(sm.client_status[client])
    } else {
        None
    }
}

/// The answer that applying `e` to `sm` gives: for a request that repeats
/// its client's last one the answer given then, for any other request the
/// client's status before it, and nothing for other entries.
pub open spec fn response_to(sm: StateMachineView, e: EntryView) -> Option<Seq<char>> {
    match e.payload {
        PayloadView::Blank => None,
        PayloadView::Normal(req) => if is_repeated(sm, req) {
            sm.client_serial_responses[req.client].1
        } else {
            status_of(sm, req.client)
        },
        PayloadView::Membership(_) => None,
    }
}

/// The state machine after `e` was applied to `sm`. Every entry moves
/// `last_applied_log` to its log id; a request that does not repeat its
/// client's last one sets the client's status and records serial and answer;
/// a membership entry sets `last_membership`.
pub open spec fn after_entry(sm: StateMachineView, e: EntryView) -> StateMachineView {
    let applied = StateMachineView { last_applied_log: Some(e.log_id), ..sm };
    match e.payload {
        PayloadView::Blank => applied,
        PayloadView::Normal(req) => if is_repeated(sm, req) {
            applied
        } else {
            StateMachineView {
                client_status: sm.client_status.insert(req.client, req.status),
                client_serial_responses: sm.client_serial_responses.insert(
                    req.client,
                    (req.serial, status_of(sm, req.client)),
                ),
                ..applied
            }
        },
        PayloadView::Membership(voters) => StateMachineView {
            last_membership: Some(EffectiveMembershipView { log_id: e.log_id, config: voters }),
            ..applied
        },
    }
}

/// The state machine after the entries `es` were applied to `sm` in order.
pub open spec fn after_entries(sm: StateMachineView, es: Seq<EntryView>) -> StateMachineView
    decreases es.len(),
{
    if es.len() == 0 {
        sm
    } else {
        after_entry(after_entries(sm, es.drop_last()), es.last())
    }
}

/// The answers that applying the entries `es` to `sm` in order gives, one
/// for each entry.
pub open spec fn responses_to(sm: StateMachineView, es: Seq<EntryView>) -> Seq<Option<Seq<char>>> {
    Seq::new(es.len(), |i: int| response_to(after_entries(sm, es.take(i)), es[i]))
}

impl View for MemStoreStateMachine {
    type V = StateMachineView;

    open spec fn view(&self) -> StateMachineView {
        StateMachineView {
            last_applied_log: self.last_applied_log,
            last_membership: match self.last_membership {
                Some(m) => Some(m@),
                None => None,
            },
            client_serial_responses: self.client_serial_responses@,
            client_status: self.client_status@,
        }
    }
}

impl MemStoreStateMachine {
    /// Both client tables are well formed. It holds of every state machine
    /// made by `default` and changed through `apply` only.
    pub open spec fn wf(&self) -> bool {
        self.client_serial_responses.wf() && self.client_status.wf()
    }

    /// Applies `entry` and returns the answer for its client.
    pub fn apply(&mut self, entry: &Entry) -> (response: ClientResponse)
        requires
            old(self).wf(),
        ensures
            final(self).wf(),
            final(self)@ == after_entry(old(self)@, entry@),
            response@ == response_to(old(self)@, entry@),
    {
        self.last_applied_log = Some(entry.log_id);
        match &entry.payload {
            EntryPayload::Blank => ClientResponse::new(None),
            EntryPayload::Normal(data) => {
                if let Some(last) = self.client_serial_responses.get(&data.client) {
                    if last.0 == data.serial {
                        return ClientResponse::new(clone_opt_text(&last.1));
                    }
                }
                let previous = self.client_status.insert(data.client.clone(), data.status.clone());
                self.client_serial_responses.insert(
                    data.client.clone(),
                    (data.serial, clone_opt_text(&previous)),
                );
                ClientResponse::new(previous)
            },
            EntryPayload::Membership(voters) => {
                self.last_membership = Some(EffectiveMembership::new(entry.log_id, voters.clone()));
                ClientResponse::new(None)
            },
        }
    }
}

impl Default for MemStoreStateMachine {
    fn default() -> (sm: MemStoreStateMachine)
        ensures
            sm.wf(),
            sm@ == empty_state_machine(),
    {
        MemStoreStateMachine {
            last_applied_log: None,
            last_membership: None,
            client_serial_responses: ClientTable::new(),
            client_status: ClientTable::new(),
        }
    }
}

impl Clone for MemStoreStateMachine {
    fn clone(&self) -> (sm: MemStoreStateMachine)
        ensures
            self.wf() ==> sm.wf() && sm@ == self@,
    {
        MemStoreStateMachine {
            last_applied_log: self.last_applied_log,
            last_membership: match &self.last_membership {
                Some(m) => Some(m.clone()),
                None => None,
            },
            client_serial_responses: self.client_serial_responses.clone(),
            client_status: self.client_status.clone(),
        }
    }
}

} // verus!
