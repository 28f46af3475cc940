//! The protocol layer: what one inbound payload makes the node do, and how
//! a response is built.
//!
//! Per message the layer is stateless.  A payload is first read as a
//! response: if it is one and names this node as receiver, its records are
//! surfaced to the user.  Otherwise it is read as a request: a request for
//! all, or one addressed to this node, makes the node build exactly one
//! response — the public part of its catalog, addressed back to the sender.
//! Everything else, foreign or malformed, is ignored without error.

use vstd::prelude::*;

use crate::bytes_eq;
use crate::catalog::Record;
use crate::catalog::RecordModel;
use crate::catalog::public_part;
use crate::catalog::public_records;
use crate::codec::decode_envelope;
use crate::codec::enc_envelope;
use crate::codec::lemma_codec_round_trip;
use crate::codec::s_parse_envelope;
use crate::envelope::Envelope;
use crate::envelope::EnvelopeModel;
use crate::envelope::ListMode;
use crate::envelope::ListModeModel;

verus! {

/// What one inbound payload amounts to.
pub enum Inbound {
    /// A response addressed to this node: show these records to the user.
    SurfaceRecords(Vec<Record>),
    /// An accepted request: build a response and send it to this receiver.
    BuildResponse { receiver: Vec<u8> },
    /// Foreign, misaddressed or malformed traffic: do nothing.
    Ignore,
}

/// The mathematical value of an `Inbound`.
pub ghost enum InboundModel {
    SurfaceRecords(Seq<RecordModel>),
    BuildResponse { receiver: Seq<u8> },
    Ignore,
}

impl View for Inbound {
    type V = InboundModel;

    open spec fn view(&self) -> InboundModel {
        match self {
            Inbound::SurfaceRecords(rs) => InboundModel::SurfaceRecords(rs.deep_view()),
            Inbound::BuildResponse { receiver } => InboundModel::BuildResponse {
                receiver: receiver@,
            },
            Inbound::Ignore => InboundModel::Ignore,
        }
    }
}

impl DeepView for Inbound {
    type V = InboundModel;

    open spec fn deep_view(&self) -> InboundModel {
        self.view()
    }
}

/// The routing rule: what a node with the given identity does with a
/// payload flooded by `source`.
pub open spec fn handle_payload_spec(
    local: Seq<u8>,
    source: Seq<u8>,
    payload: Seq<u8>,
) -> InboundModel {
    match s_parse_envelope(payload) {
        None => InboundModel::Ignore,
        Some(e) => match e {
            EnvelopeModel::Response { mode, data, receiver } => if receiver == local {
                InboundModel::SurfaceRecords(data)
            } else {
                InboundModel::Ignore
            },
            EnvelopeModel::Request { mode } => match mode {
                ListModeModel::All => InboundModel::BuildResponse { receiver: source },
                ListModeModel::One(target) => if target == local {
                    InboundModel::BuildResponse { receiver: source }
                } else {
                    InboundModel::Ignore
                },
            },
        },
    }
}

/// Applies the routing rule to one payload.
pub fn handle_payload(local: &[u8], source: &[u8], payload: &[u8]) -> (r: Inbound)
    ensures
        r.deep_view() == handle_payload_spec(local@, source@, payload@),
{
    match decode_envelope(payload) {
        None => Inbound::Ignore,
        Some(env) => match env {
            Envelope::Response { mode: _, data, receiver } => {
                if bytes_eq(receiver.as_slice(), local) {
                    Inbound::SurfaceRecords(data)
                } else {
                    Inbound::Ignore
                }
            },
            Envelope::Request { mode } => match mode {
                ListMode::All => Inbound::BuildResponse {
                    receiver: vstd::slice::slice_to_vec(source),
                },
                ListMode::One(target) => {
                    if bytes_eq(target.as_slice(), local) {
                        Inbound::BuildResponse {
                            receiver: vstd::slice::slice_to_vec(source),
                        }
                    } else {
                        Inbound::Ignore
                    }
                },
            },
        },
    }
}

/// Builds the one response an accepted request gets: the public part of the
/// catalog, addressed to the requester.
pub fn respond_with_public_records(catalog: &Vec<Record>, receiver: Vec<u8>) -> (env: Envelope)
    ensures
        env.deep_view() == (EnvelopeModel::Response {
            mode: ListModeModel::All,
            data: public_part(catalog.deep_view()),
            receiver: receiver@,
        }),
{
    let data = public_records(catalog);
    Envelope::Response { mode: ListMode::All, data, receiver }
}

/// Routing correctness for addressed requests: a `One(target)` request
/// reaches only the node whose identity is the target.  Every other node
/// ignores it; the target answers the sender, and with nothing but the
/// public part of its catalog (see `respond_with_public_records`).
pub proof fn lemma_one_request_routing(local: Seq<u8>, source: Seq<u8>, target: Seq<u8>)
    ensures
        handle_payload_spec(
            local,
            source,
            enc_envelope(
                EnvelopeModel::Request { mode: ListModeModel::One(target) },
            ),
        ) == if target == local {
            InboundModel::BuildResponse { receiver: source }
        } else {
            InboundModel::Ignore
        },
{
    lemma_codec_round_trip(EnvelopeModel::Request { mode: ListModeModel::One(target) });
}

/// Response matching: a response names its receiver, and a node that is not
/// that receiver never surfaces it.  The named receiver surfaces exactly
/// the records the response carries.
pub proof fn lemma_response_matching(
    local: Seq<u8>,
    source: Seq<u8>,
    mode: ListModeModel,
    data: Seq<RecordModel>,
    receiver: Seq<u8>,
)
    ensures
        handle_payload_spec(
            local,
            source,
            enc_envelope(EnvelopeModel::Response { mode, data, receiver }),
        ) == if receiver == local {
            InboundModel::SurfaceRecords(data)
        } else {
            InboundModel::Ignore
        },
{
    lemma_codec_round_trip(EnvelopeModel::Response { mode, data, receiver });
}

/// What a response carries is public only: every record in the public part
/// of a catalog has its `public` flag set.
pub proof fn lemma_public_part_only_public(catalog: Seq<RecordModel>)
    ensures
        forall|k: int| 0 <= k < public_part(catalog).len() ==> (#[trigger] public_part(
            catalog,
        )[k]).public,
{
    broadcast use vstd::seq_lib::group_filter_ensures;

}

} // verus!
