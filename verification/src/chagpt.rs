//! The audience role: registration, the connect-time schedule snapshot, and
//! the submission pipeline's validation step.
use vstd::prelude::*;

use crate::danmaku::MessageModel;
use crate::hub::{Hub, HubModel, Output, OutputModel};
use crate::json::{parse_propose, sp_propose};
use crate::repertoire::{build_repertoire_payload, repertoire_payload};
use crate::text::{count_scalars, scalar_count};

verus! {

/// The audience role.
pub struct ChaGPTActor;

/// A connecting audience member is registered, and — when a schedule is
/// cached — receives a snapshot of the last successfully persisted schedule,
/// and nothing else; with no cached schedule nothing is sent.
pub open spec fn spec_audience_started(h: HubModel, id: u64) -> (HubModel, Seq<OutputModel>) {
    let h1 = if h.actors.contains(id) {
        h
    } else {
        HubModel { actors: h.actors.push(id), ..h }
    };
    let outs = match h.repertoire {
        Some(r) => seq![OutputModel::Reply(repertoire_payload(r))],
        None => Seq::<OutputModel>::empty(),
    };
    (h1, outs)
}

/// True when the content passes the hub's configured length cap, counted
/// in Unicode scalar values; a hub configured without a cap accepts any
/// length.
pub open spec fn within_content_limit(h: HubModel, content: Seq<u8>) -> bool {
    match h.content_limit {
        Some(limit) => scalar_count(content) <= limit,
        None => true,
    }
}

/// A text frame is read as a submission request; a well-formed request
/// whose content is within the configured length cap asks storage to
/// persist it, and anything else is dropped without a trace.
pub open spec fn spec_audience_text(h: HubModel, text: Seq<u8>) -> Seq<OutputModel> {
    match sp_propose(text) {
        Some(m) => match m {
            MessageModel::Propose { content, color } => if within_content_limit(h, content) {
                seq![OutputModel::PersistDanmaku { content: content, color: color }]
            } else {
                Seq::<OutputModel>::empty()
            },
        },
        None => Seq::<OutputModel>::empty(),
    }
}

/// Law: the snapshot a newly connecting audience member receives is
/// exactly the payload of the last successfully persisted schedule — a
/// failed update in between changes nothing — and before any schedule was
/// ever persisted, no snapshot is sent at all.
pub proof fn lemma_snapshot_matches_last_update(
    h: HubModel,
    r: crate::repertoire::RepertoireModel,
    r2: crate::repertoire::RepertoireModel,
    id: u64,
)
    ensures
        ({
            let h1 = crate::repertoire::spec_repertoire_saved(h, r, true).0;
            spec_audience_started(h1, id).1 == seq![OutputModel::Reply(repertoire_payload(r))]
        }),
        ({
            let h1 = crate::repertoire::spec_repertoire_saved(h, r, true).0;
            let h2 = crate::repertoire::spec_repertoire_saved(h1, r2, false).0;
            spec_audience_started(h2, id).1 == seq![OutputModel::Reply(repertoire_payload(r))]
        }),
        h.repertoire is None ==> spec_audience_started(h, id).1 == Seq::<OutputModel>::empty(),
{
}

impl ChaGPTActor {
    /// Handles an audience connection `id` opening.
    pub fn started(&self, hub: &mut Hub, id: u64) -> (outs: Vec<Output>)
        requires
            crate::hub::hub_wf(old(hub)@),
        ensures
            crate::hub::hub_wf(final(hub)@),
            final(hub)@ == spec_audience_started(old(hub)@, id).0,
            outs.deep_view() == spec_audience_started(old(hub)@, id).1,
    {
        hub.insert_actor(id);
        let mut outs: Vec<Output> = Vec::new();
        match &hub.repertoire {
            Some(r) => {
                let payload = build_repertoire_payload(r);
                outs.push(Output::Reply(payload));
                assert(outs.deep_view() =~= spec_audience_started(old(hub)@, id).1);
            },
            None => {
                assert(outs.deep_view() =~= spec_audience_started(old(hub)@, id).1);
            },
        }
        outs
    }

    /// Handles an audience connection `id` going away: it leaves the
    /// registry, and the rest of the hub is untouched.
    pub fn stopped(&self, hub: &mut Hub, id: u64)
        requires
            crate::hub::hub_wf(old(hub)@),
        ensures
            crate::hub::hub_wf(final(hub)@),
            !final(hub)@.actors.contains(id),
            forall|x: u64|
                x != id ==> (final(hub)@.actors.contains(x) == old(hub)@.actors.contains(x)),
            final(hub)@ == (HubModel { actors: final(hub)@.actors, ..old(hub)@ }),
    {
        hub.remove_actor(id);
    }

    /// Handles a text frame from an audience connection.
    pub fn handle_text(&self, hub: &Hub, text: &[u8]) -> (outs: Vec<Output>)
        ensures
            outs.deep_view() == spec_audience_text(hub@, text@),
    {
        let mut outs: Vec<Output> = Vec::new();
        match parse_propose(text) {
            Some(m) => {
                match m {
                    crate::danmaku::Message::Propose { content, color } => {
                        let within: bool = match hub.content_limit {
                            Some(limit) => count_scalars(content.as_slice()) <= limit,
                            None => true,
                        };
                        if within {
                            outs.push(Output::PersistDanmaku { content, color });
                            assert(outs.deep_view() =~= spec_audience_text(hub@, text@));
                        } else {
                            assert(outs.deep_view() =~= spec_audience_text(hub@, text@));
                        }
                    },
                }
            },
            None => {
                assert(outs.deep_view() =~= spec_audience_text(hub@, text@));
            },
        }
        outs
    }

    /// Binary frames are accepted by the interface but carry no behaviour.
    pub fn handle_binary(&self, _bin: &[u8]) -> (outs: Vec<Output>)
        ensures
            outs.deep_view() == Seq::<OutputModel>::empty(),
    {
        let outs: Vec<Output> = Vec::new();
        assert(outs.deep_view() =~= Seq::<OutputModel>::empty());
        outs
    }
}

} // verus!
