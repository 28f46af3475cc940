//! The wire envelopes: the only values this node ever places on, or reads
//! from, the shared broadcast topic.
//!
//! An envelope is either a list request (show me your public records) or a
//! list response carrying records back to a named receiver.  A request's
//! mode is `All` — every node may answer — or `One(peer)`, addressed to a
//! single peer identity.

use vstd::prelude::*;

use crate::catalog::Record;
use crate::catalog::RecordModel;

verus! {

/// Whom a list request addresses.
pub enum ListMode {
    All,
    One(Vec<u8>),
}

/// The mathematical value of a `ListMode`.
pub ghost enum ListModeModel {
    All,
    One(Seq<u8>),
}

impl View for ListMode {
    type V = ListModeModel;

    open spec fn view(&self) -> ListModeModel {
        match self {
            ListMode::All => ListModeModel::All,
            ListMode::One(p) => ListModeModel::One(p@),
        }
    }
}

impl DeepView for ListMode {
    type V = ListModeModel;

    open spec fn deep_view(&self) -> ListModeModel {
        self.view()
    }
}

/// One unit of traffic on the shared topic.
pub enum Envelope {
    Request { mode: ListMode },
    Response { mode: ListMode, data: Vec<Record>, receiver: Vec<u8> },
}

/// The mathematical value of an `Envelope`.
pub ghost enum EnvelopeModel {
    Request { mode: ListModeModel },
    Response { mode: ListModeModel, data: Seq<RecordModel>, receiver: Seq<u8> },
}

impl View for Envelope {
    type V = EnvelopeModel;

    open spec fn view(&self) -> EnvelopeModel {
        match self {
            Envelope::Request { mode } => EnvelopeModel::Request { mode: mode@ },
            Envelope::Response { mode, data, receiver } => EnvelopeModel::Response {
                mode: mode@,
                data: data.deep_view(),
                receiver: receiver@,
            },
        }
    }
}

impl DeepView for Envelope {
    type V = EnvelopeModel;

    open spec fn deep_view(&self) -> EnvelopeModel {
        self.view()
    }
}

} // verus!
