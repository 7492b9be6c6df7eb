//! The display-output role: a single privileged connection that renders
//! approved content.
use vstd::prelude::*;

use crate::hub::{Hub, HubModel};
use crate::text::{bytes_eq, spec_trim, trim};

verus! {

/// The emitter role. It starts unregistered; a text frame holding the
/// emitter secret installs the connection into the emitter slot.
pub struct DanmakuEmitter;

/// A text frame takes the slot exactly when it trims to the emitter secret.
pub open spec fn spec_emitter_text(h: HubModel, id: u64, text: Seq<u8>) -> HubModel {
    if spec_trim(text) == h.emitter_secret {
        HubModel { emitter: Some(id), ..h }
    } else {
        h
    }
}

/// A disconnect clears the slot only when the disconnecting connection is
/// still its occupant.
pub open spec fn spec_emitter_stopped(h: HubModel, id: u64) -> HubModel {
    HubModel {
        emitter: if h.emitter == Some(id) {
            None
        } else {
            h.emitter
        },
        ..h
    }
}

/// The hub after a run of emitter connections each presented a frame
/// trimming to the emitter secret, in order.
pub open spec fn replay_emitter_logins(h: HubModel, ids: Seq<u64>, text: Seq<u8>) -> HubModel
    decreases ids.len(),
{
    if ids.len() == 0 {
        h
    } else {
        replay_emitter_logins(spec_emitter_text(h, ids[0], text), ids.drop_first(), text)
    }
}

/// Law: after any run of successful emitter logins the slot holds exactly
/// the last connection to authenticate.
pub proof fn lemma_emitter_slot_last_writer(h: HubModel, ids: Seq<u64>, text: Seq<u8>)
    requires
        ids.len() > 0,
        spec_trim(text) == h.emitter_secret,
    ensures
        replay_emitter_logins(h, ids, text).emitter == Some(ids.last()),
        replay_emitter_logins(h, ids, text).emitter_secret == h.emitter_secret,
    decreases ids.len(),
{
    let h1 = spec_emitter_text(h, ids[0], text);
    if ids.len() == 1 {
        assert(h1.emitter == Some(ids[0]));
    } else {
        lemma_emitter_slot_last_writer(h1, ids.drop_first(), text);
        assert(ids.drop_first().last() == ids.last());
    }
}

/// Law: a disconnect from an earlier, already-superseded emitter
/// connection does not clear the slot.
pub proof fn lemma_emitter_stale_disconnect(h: HubModel, stale: u64, cur: u64)
    requires
        h.emitter == Some(cur),
        stale != cur,
    ensures
        spec_emitter_stopped(h, stale) == h,
{
    assert(spec_emitter_stopped(h, stale) =~~= h);
}

impl DanmakuEmitter {
    /// Handles a text frame from the emitter connection `id`: a frame whose
    /// trimmed bytes equal the emitter secret takes the slot, superseding
    /// any prior occupant; every other frame is ignored.
    pub fn handle_text(&self, hub: &mut Hub, id: u64, text: &[u8])
        ensures
            final(hub)@ == spec_emitter_text(old(hub)@, id, text@),
    {
        let trimmed = trim(text);
        if bytes_eq(trimmed.as_slice(), hub.emitter_secret.as_slice()) {
            hub.set_emitter(id);
        }
    }

    /// Handles the emitter connection `id` going away: the slot is cleared
    /// only if `id` still holds it, so a stale disconnect cannot evict a
    /// newer emitter.
    pub fn stopped(&self, hub: &mut Hub, id: u64)
        ensures
            final(hub)@ == spec_emitter_stopped(old(hub)@, id),
    {
        hub.clear_emitter_if(id);
    }
}

} // verus!
