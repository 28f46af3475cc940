//! The event loop's decision core: one event in, one optional action out.
//!
//! The loop itself — waiting on the three sources, performing I/O — lives
//! outside.  Here is everything it decides: `step` owns the node's mutable
//! state (identity and overlay view), consumes one event, updates the view,
//! and names at most one action for the caller to perform.  Dispatch of one
//! event completes before the next is drawn, so running `step` in a loop is
//! exactly the cooperative scheduler: its contract below is the whole
//! dispatch table.

use vstd::prelude::*;

use crate::catalog::Record;
use crate::codec::enc_envelope;
use crate::codec::encode_envelope;
use crate::commands::Command;
use crate::commands::CommandModel;
use crate::commands::parse_command;
use crate::commands::parse_command_spec;
use crate::envelope::Envelope;
use crate::envelope::EnvelopeModel;
use crate::envelope::ListMode;
use crate::envelope::ListModeModel;
use crate::membership::Membership;
use crate::protocol::Inbound;
use crate::protocol::InboundModel;
use crate::protocol::handle_payload;
use crate::protocol::handle_payload_spec;

verus! {

/// What the network stack can report, as one closed union.
pub enum NetEvent {
    /// Discovery reports a new peer.
    Discovered(Vec<u8>),
    /// Discovery reports a peer gone; `still_reported` answers the live
    /// query whether another discovery source still asserts it.
    Expired { peer: Vec<u8>, still_reported: bool },
    /// A payload arrived on the subscribed topic from `source`.
    Message { source: Vec<u8>, payload: Vec<u8> },
    /// The transport bound its listen address.
    ListenerReady,
    /// Any other transport event: noted and ignored.
    Other,
}

/// One event from one of the loop's three sources.
pub enum Event {
    /// A line of user input.
    Input(Vec<u8>),
    /// A network event.
    Net(NetEvent),
    /// An asynchronously built response is ready to go out.
    ResponseReady(Envelope),
}

/// What the loop asks its surroundings to do; at most one per event.
pub enum Action {
    /// Flood these bytes on the shared topic.
    PublishPayload(Vec<u8>),
    /// Show the known peers to the user.
    ShowPeers(Vec<Vec<u8>>),
    /// Read the catalog from storage and show all of it to the user.
    ShowLocalCatalog,
    /// Append a new private record to the catalog (read, extend, write).
    CreateRecord { name: Vec<u8>, ingredients: Vec<u8>, instructions: Vec<u8> },
    /// Mark the record with this id public (read, toggle, write).
    PublishRecord { id: u64 },
    /// Read the catalog and queue a response to this receiver, off the loop.
    BuildResponse { receiver: Vec<u8> },
    /// Show records surfaced by a response addressed to this node.
    SurfaceRecords(Vec<Record>),
    /// Tell the user the command was not recognized.
    ReportUnknownCommand,
    /// Tell the user a create needs name|ingredients|instructions.
    ReportMalformedCreate,
    /// Tell the user the publish id was not a number.
    ReportInvalidId,
}

/// The node state the loop owns: who this node is, and whom it floods to.
pub struct Node {
    pub identity: Vec<u8>,
    pub membership: Membership,
}

impl Node {
    pub open spec fn wf(&self) -> bool {
        self.membership.wf()
    }

    /// A fresh node with the given identity and an empty overlay view.
    pub fn new(identity: Vec<u8>) -> (n: Node)
        ensures
            n.wf(),
            n.identity@ == identity@,
            n.membership.peer_set() == Set::<Seq<u8>>::empty(),
    {
        Node { identity, membership: Membership::new() }
    }
}

/// Consumes one event: updates the overlay view and names the one action
/// the surroundings must perform, if any.  The contract is the dispatch
/// table of the event loop, case by case.
pub fn step(node: &mut Node, event: Event) -> (action: Option<Action>)
    requires
        old(node).wf(),
    ensures
        final(node).wf(),
        final(node).identity@ == old(node).identity@,
        match event {
            Event::Net(NetEvent::Discovered(p)) => {
                &&& final(node).membership.peer_set() == old(node).membership.peer_set().insert(
                    p@,
                )
                &&& action is None
            },
            Event::Net(NetEvent::Expired { peer, still_reported }) => {
                &&& (still_reported ==> final(node).membership.peer_set() == old(
                    node,
                ).membership.peer_set())
                &&& (!still_reported ==> final(node).membership.peer_set() == old(
                    node,
                ).membership.peer_set().remove(peer@))
                &&& action is None
            },
            Event::Net(NetEvent::Message { source, payload }) => {
                &&& final(node).membership == old(node).membership
                &&& match handle_payload_spec(old(node).identity@, source@, payload@) {
                    InboundModel::SurfaceRecords(data) => action matches Some(
                        Action::SurfaceRecords(v),
                    ) && v.deep_view() == data,
                    InboundModel::BuildResponse { receiver } => action matches Some(
                        Action::BuildResponse { receiver: r },
                    ) && r@ == receiver,
                    InboundModel::Ignore => action is None,
                }
            },
            Event::Net(NetEvent::ListenerReady) => final(node).membership == old(node).membership
                && action is None,
            Event::Net(NetEvent::Other) => final(node).membership == old(node).membership
                && action is None,
            Event::ResponseReady(env) => final(node).membership == old(node).membership && (
            action matches Some(Action::PublishPayload(p)) && p@ == enc_envelope(env.deep_view())),
            Event::Input(line) => {
                &&& final(node).membership == old(node).membership
                &&& match parse_command_spec(line@) {
                    CommandModel::ListPeers => action matches Some(Action::ShowPeers(l))
                        && l.deep_view() == old(node).membership.peer_seq(),
                    CommandModel::ListLocal => action == Some(Action::ShowLocalCatalog),
                    CommandModel::ListAll => action matches Some(Action::PublishPayload(p)) && p@
                        == enc_envelope(
                        EnvelopeModel::Request { mode: ListModeModel::All },
                    ),
                    CommandModel::ListOne(t) => action matches Some(Action::PublishPayload(p))
                        && p@ == enc_envelope(
                        EnvelopeModel::Request { mode: ListModeModel::One(t) },
                    ),
                    CommandModel::Create { name, ingredients, instructions } => action matches Some(
                        Action::CreateRecord { name: n, ingredients: g, instructions: t },
                    ) && n@ == name && g@ == ingredients && t@ == instructions,
                    CommandModel::CreateMalformed => action == Some(Action::ReportMalformedCreate),
                    CommandModel::Publish(id) => action == Some(Action::PublishRecord { id }),
                    CommandModel::PublishInvalid => action == Some(Action::ReportInvalidId),
                    CommandModel::Unknown => action == Some(Action::ReportUnknownCommand),
                }
            },
        },
{
    match event {
        Event::Input(line) => {
            let cmd = parse_command(line.as_slice());
            match cmd {
                Command::ListPeers => Some(
                    Action::ShowPeers(node.membership.list_known_peers()),
                ),
                Command::ListLocal => Some(Action::ShowLocalCatalog),
                Command::ListAll => {
                    let env = Envelope::Request { mode: ListMode::All };
                    Some(Action::PublishPayload(encode_envelope(&env)))
                },
                Command::ListOne(p) => {
                    let env = Envelope::Request { mode: ListMode::One(p) };
                    Some(Action::PublishPayload(encode_envelope(&env)))
                },
                Command::Create { name, ingredients, instructions } => Some(
                    Action::CreateRecord { name, ingredients, instructions },
                ),
                Command::CreateMalformed => Some(Action::ReportMalformedCreate),
                Command::Publish(id) => Some(Action::PublishRecord { id }),
                Command::PublishInvalid => Some(Action::ReportInvalidId),
                Command::Unknown => Some(Action::ReportUnknownCommand),
            }
        },
        Event::Net(net) => match net {
            NetEvent::Discovered(p) => {
                node.membership.on_discovered(p);
                None
            },
            NetEvent::Expired { peer, still_reported } => {
                node.membership.on_expired(peer.as_slice(), still_reported);
                None
            },
            NetEvent::Message { source, payload } => {
                match handle_payload(
                    node.identity.as_slice(),
                    source.as_slice(),
                    payload.as_slice(),
                ) {
                    Inbound::SurfaceRecords(rs) => Some(Action::SurfaceRecords(rs)),
                    Inbound::BuildResponse { receiver } => Some(
                        Action::BuildResponse { receiver },
                    ),
                    Inbound::Ignore => None,
                }
            },
            NetEvent::ListenerReady => None,
            NetEvent::Other => None,
        },
        Event::ResponseReady(env) => Some(Action::PublishPayload(encode_envelope(&env))),
    }
}

} // verus!
