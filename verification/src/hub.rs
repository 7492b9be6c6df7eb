//! The hub's shared state: the audience registry, the two single-occupant
//! slots, the cached repertoire, and the configured shared secrets.
//!
//! The state is an explicitly owned value handed to every connection task;
//! the caller guards it with a lock and performs the returned [`Output`]s.
use vstd::prelude::*;

use crate::repertoire::{Repertoire, RepertoireModel};

verus! {

/// What the hub asks its caller to do after a step.
pub enum Output {
    /// Send this text payload back on the connection being handled.
    Reply(Vec<u8>),
    /// Send this text payload to the connection registered under `to`.
    Send { to: u64, payload: Vec<u8> },
    /// Ask storage to insert a submission and report back.
    PersistDanmaku { content: Vec<u8>, color: u32 },
    /// Ask storage to upsert the schedule and report back.
    PersistRepertoire { repertoire: Repertoire },
    /// Tear the connection being handled down; `echo` says whether to echo a
    /// close frame first.
    Stop { echo: bool },
}

/// The mathematical shape of an output.
#[verifier::ext_equal]
pub enum OutputModel {
    Reply(Seq<u8>),
    Send { to: u64, payload: Seq<u8> },
    PersistDanmaku { content: Seq<u8>, color: u32 },
    PersistRepertoire { repertoire: RepertoireModel },
    Stop { echo: bool },
}

impl View for Output {
    type V = OutputModel;

    open spec fn view(&self) -> OutputModel {
        match self {
            Output::Reply(v) => OutputModel::Reply(v@),
            Output::Send { to, payload } => OutputModel::Send { to: *to, payload: payload@ },
            Output::PersistDanmaku { content, color } => OutputModel::PersistDanmaku {
                content: content@,
                color: *color,
            },
            Output::PersistRepertoire { repertoire } => OutputModel::PersistRepertoire {
                repertoire: repertoire@,
            },
            Output::Stop { echo } => OutputModel::Stop { echo: *echo },
        }
    }
}

impl DeepView for Output {
    type V = OutputModel;

    open spec fn deep_view(&self) -> OutputModel {
        self.view()
    }
}

/// The hub state as the contracts see it.
#[verifier::ext_equal]
pub struct HubModel {
    pub actors: Seq<u64>,
    pub admin: Option<u64>,
    pub emitter: Option<u64>,
    pub repertoire: Option<RepertoireModel>,
    pub admin_secret: Seq<u8>,
    pub emitter_secret: Seq<u8>,
    pub direct_to_emitter: bool,
    pub content_limit: Option<usize>,
}

/// The audience registry holds each connection at most once.
pub open spec fn hub_wf(h: HubModel) -> bool {
    forall|i: int, j: int| 0 <= i < j < h.actors.len() ==> h.actors[i] != h.actors[j]
}

/// The hub's shared state. The two policy switches cover the divergence
/// the deployment allows: `direct_to_emitter` short-circuits moderation by
/// sending accepted submissions straight to the emitter (off by default,
/// the moderated variant being canonical), and `content_limit` is the
/// submission length cap in Unicode scalar values (`None` disables it).
pub struct Hub {
    pub actors: Vec<u64>,
    pub current_admin: Option<u64>,
    pub current_emitter: Option<u64>,
    pub repertoire: Option<Repertoire>,
    pub admin_secret: Vec<u8>,
    pub emitter_secret: Vec<u8>,
    pub direct_to_emitter: bool,
    pub content_limit: Option<usize>,
}

impl View for Hub {
    type V = HubModel;

    open spec fn view(&self) -> HubModel {
        HubModel {
            actors: self.actors@,
            admin: self.current_admin,
            emitter: self.current_emitter,
            repertoire: match self.repertoire {
                Some(r) => Some(r@),
                None => None,
            },
            admin_secret: self.admin_secret@,
            emitter_secret: self.emitter_secret@,
            direct_to_emitter: self.direct_to_emitter,
            content_limit: self.content_limit,
        }
    }
}

/// One send per registered audience member, in registry order, all carrying
/// the same payload.
pub open spec fn spec_broadcast(actors: Seq<u64>, payload: Seq<u8>) -> Seq<OutputModel> {
    Seq::new(actors.len(), |i: int| OutputModel::Send { to: actors[i], payload: payload })
}

/// Law: a broadcast yields exactly one independent send per registered
/// audience member, in registry order, each carrying the same payload —
/// so a failure delivering to any one member is confined to that one
/// output — and a broadcast to an empty registry yields nothing at all.
pub proof fn lemma_broadcast_one_send_each(actors: Seq<u64>, payload: Seq<u8>)
    ensures
        spec_broadcast(actors, payload).len() == actors.len(),
        forall|k: int|
            0 <= k < actors.len() ==> spec_broadcast(actors, payload)[k] == (OutputModel::Send {
                to: actors[k],
                payload: payload,
            }),
        actors.len() == 0 ==> spec_broadcast(actors, payload) == Seq::<OutputModel>::empty(),
{
    if actors.len() == 0 {
        assert(spec_broadcast(actors, payload) =~= Seq::<OutputModel>::empty());
    }
}

pub proof fn lemma_outputs_deep_view(v: Vec<Output>)
    ensures
        v.deep_view() == Seq::new(v@.len(), |i: int| v@[i]@),
{
    assert(v.deep_view() =~= Seq::new(v@.len(), |i: int| v@[i]@));
}

/// Moves the outputs of `src` to the end of `dst`, keeping their order.
pub fn append_outputs(dst: &mut Vec<Output>, src: Vec<Output>)
    ensures
        final(dst).deep_view() == old(dst).deep_view() + src.deep_view(),
{
    let ghost pre_dv = dst.deep_view();
    let ghost pre_seq = dst@;
    let ghost src_dv = src.deep_view();
    let ghost src_seq = src@;
    proof {
        lemma_outputs_deep_view(*dst);
        lemma_outputs_deep_view(src);
    }
    let mut s = src;
    dst.append(&mut s);
    proof {
        lemma_outputs_deep_view(*dst);
        assert(dst@ == pre_seq + src_seq);
        assert(dst.deep_view() =~= pre_dv + src_dv) by {
            assert(dst.deep_view().len() == pre_seq.len() + src_seq.len());
            assert forall|x: int| 0 <= x < dst.deep_view().len() implies dst.deep_view()[x] == (
            pre_dv + src_dv)[x] by {
                assert(dst.deep_view()[x] == dst@[x]@);
                if x < pre_seq.len() {
                    assert(dst@[x] == pre_seq[x]);
                    assert(pre_dv[x] == pre_seq[x]@);
                } else {
                    assert(dst@[x] == src_seq[x - pre_seq.len()]);
                    assert(src_dv[x - pre_seq.len()] == src_seq[x - pre_seq.len()]@);
                }
            }
        }
    }
}

impl Hub {
    /// A hub that starts with no connections, no schedule, the two
    /// configured secrets, moderated routing, and the default content cap.
    pub fn new(admin_secret: Vec<u8>, emitter_secret: Vec<u8>) -> (r: Hub)
        ensures
            r@ == (HubModel {
                actors: Seq::empty(),
                admin: None,
                emitter: None,
                repertoire: None,
                admin_secret: admin_secret@,
                emitter_secret: emitter_secret@,
                direct_to_emitter: false,
                content_limit: Some(crate::constants::CONTENT_LIMIT),
            }),
            hub_wf(r@),
    {
        let r = Hub {
            actors: Vec::new(),
            current_admin: None,
            current_emitter: None,
            repertoire: None,
            admin_secret,
            emitter_secret,
            direct_to_emitter: false,
            content_limit: Some(crate::constants::CONTENT_LIMIT),
        };
        assert(r@ =~~= (HubModel {
            actors: Seq::empty(),
            admin: None,
            emitter: None,
            repertoire: None,
            admin_secret: r.admin_secret@,
            emitter_secret: r.emitter_secret@,
            direct_to_emitter: false,
            content_limit: Some(crate::constants::CONTENT_LIMIT),
        }));
        r
    }

    /// True when `id` is in the audience registry.
    pub fn contains_actor(&self, id: u64) -> (r: bool)
        ensures
            r == self@.actors.contains(id),
    {
        let n: usize = self.actors.len();
        let mut i: usize = 0;
        while i < n
            invariant
                0 <= i <= n == self@.actors.len(),
                forall|k: int| 0 <= k < i ==> self@.actors[k] != id,
            decreases n - i,
        {
            if self.actors[i] == id {
                return true;
            }
            i = i + 1;
        }
        assert(!self@.actors.contains(id));
        false
    }

    /// Registers an audience connection; a connection already present is
    /// left alone, so a double insert is a no-op.
    pub fn insert_actor(&mut self, id: u64) -> (inserted: bool)
        requires
            hub_wf(old(self)@),
        ensures
            hub_wf(final(self)@),
            inserted == !old(self)@.actors.contains(id),
            final(self)@ == if old(self)@.actors.contains(id) {
                old(self)@
            } else {
                HubModel { actors: old(self)@.actors.push(id), ..old(self)@ }
            },
            final(self)@.actors.contains(id),
    {
        if self.contains_actor(id) {
            assert(self@ =~~= old(self)@);
            return false;
        }
        self.actors.push(id);
        assert(self@ =~~= (HubModel { actors: old(self)@.actors.push(id), ..old(self)@ }));
        assert(self@.actors.last() == id);
        true
    }

    /// Unregisters an audience connection; an absent connection is a no-op,
    /// so a double remove is harmless.
    pub fn remove_actor(&mut self, id: u64) -> (removed: bool)
        requires
            hub_wf(old(self)@),
        ensures
            hub_wf(final(self)@),
            removed == old(self)@.actors.contains(id),
            !final(self)@.actors.contains(id),
            forall|x: u64|
                x != id ==> (final(self)@.actors.contains(x) == old(self)@.actors.contains(x)),
            final(self)@.actors.len() == old(self)@.actors.len() - (if removed {
                1int
            } else {
                0int
            }),
            final(self)@ == (HubModel { actors: final(self)@.actors, ..old(self)@ }),
            hub_wf(old(self)@) && !old(self)@.actors.contains(id) ==> final(self)@ == old(self)@,
    {
        let n: usize = self.actors.len();
        let mut i: usize = 0;
        while i < n
            invariant
                0 <= i <= n == self@.actors.len(),
                forall|k: int| 0 <= k < i ==> self@.actors[k] != id,
                self@ == old(self)@,
                hub_wf(self@),
            decreases n - i,
        {
            if self.actors[i] == id {
                let ghost pre = self@.actors;
                self.actors.remove(i);
                proof {
                    assert(self@.actors =~= pre.subrange(0, i as int) + pre.subrange(
                        i + 1,
                        pre.len() as int,
                    ));
                    assert(pre[i as int] == id);
                    assert forall|x: u64| x != id implies (self@.actors.contains(x)
                        == pre.contains(x)) by {
                        if pre.contains(x) {
                            let k = choose|k: int| 0 <= k < pre.len() && pre[k] == x;
                            if k < i {
                                assert(self@.actors[k] == x);
                            } else {
                                assert(k > i);
                                assert(self@.actors[k - 1] == x);
                            }
                        } else {
                            if self@.actors.contains(x) {
                                let k = choose|k: int|
                                    0 <= k < self@.actors.len() && self@.actors[k] == x;
                                if k < i {
                                    assert(pre[k] == x);
                                } else {
                                    assert(pre[k + 1] == x);
                                }
                            }
                        }
                    }
                    assert(!self@.actors.contains(id)) by {
                        if self@.actors.contains(id) {
                            let k = choose|k: int|
                                0 <= k < self@.actors.len() && self@.actors[k] == id;
                            if k < i {
                                assert(pre[k] == id);
                                assert(pre[i as int] == id);
                            } else {
                                assert(pre[k + 1] == id);
                                assert(pre[i as int] == id);
                            }
                        }
                    }
                    assert(pre.contains(id));
                    assert(self@ =~~= (HubModel { actors: self@.actors, ..old(self)@ }));
                }
                return true;
            }
            i = i + 1;
        }
        assert(!self@.actors.contains(id));
        assert(self@ =~~= (HubModel { actors: self@.actors, ..old(self)@ }));
        false
    }

    /// Installs the most recently authenticated admin connection,
    /// superseding any prior occupant.
    pub fn set_admin(&mut self, id: u64)
        ensures
            final(self)@ == (HubModel { admin: Some(id), ..old(self)@ }),
    {
        self.current_admin = Some(id);
        assert(self@ =~~= (HubModel { admin: Some(id), ..old(self)@ }));
    }

    /// Clears the admin slot only when `id` is still its occupant, so a
    /// stale disconnect cannot evict a newer admin.
    pub fn clear_admin_if(&mut self, id: u64)
        ensures
            final(self)@ == (HubModel {
                admin: if old(self)@.admin == Some(id) {
                    None
                } else {
                    old(self)@.admin
                },
                ..old(self)@
            }),
    {
        let clear: bool = match self.current_admin {
            Some(a) => a == id,
            None => false,
        };
        if clear {
            self.current_admin = None;
        }
        assert(self@ =~~= (HubModel {
            admin: if old(self)@.admin == Some(id) {
                None
            } else {
                old(self)@.admin
            },
            ..old(self)@
        }));
    }

    /// Installs the most recently authenticated emitter connection,
    /// superseding any prior occupant.
    pub fn set_emitter(&mut self, id: u64)
        ensures
            final(self)@ == (HubModel { emitter: Some(id), ..old(self)@ }),
    {
        self.current_emitter = Some(id);
        assert(self@ =~~= (HubModel { emitter: Some(id), ..old(self)@ }));
    }

    /// Clears the emitter slot only when `id` is still its occupant.
    pub fn clear_emitter_if(&mut self, id: u64)
        ensures
            final(self)@ == (HubModel {
                emitter: if old(self)@.emitter == Some(id) {
                    None
                } else {
                    old(self)@.emitter
                },
                ..old(self)@
            }),
    {
        let clear: bool = match self.current_emitter {
            Some(e) => e == id,
            None => false,
        };
        if clear {
            self.current_emitter = None;
        }
        assert(self@ =~~= (HubModel {
            emitter: if old(self)@.emitter == Some(id) {
                None
            } else {
                old(self)@.emitter
            },
            ..old(self)@
        }));
    }

    /// One independent send per current audience member; a failure of any
    /// one send is the caller's to log and swallow, and cannot affect the
    /// others. Broadcasting to an empty registry yields nothing.
    pub fn broadcast(&self, payload: &Vec<u8>) -> (outs: Vec<Output>)
        ensures
            outs.deep_view() == spec_broadcast(self@.actors, payload@),
    {
        let mut outs: Vec<Output> = Vec::new();
        let n: usize = self.actors.len();
        let mut i: usize = 0;
        while i < n
            invariant
                0 <= i <= n == self@.actors.len(),
                outs.deep_view() == spec_broadcast(self@.actors, payload@).take(i as int),
            decreases n - i,
        {
            let to: u64 = self.actors[i];
            let ghost pre = outs.deep_view();
            proof {
                assert(pre.len() == outs@.len());
                assert(pre.len() == i);
            }
            let p: Vec<u8> = crate::text::clone_bytes(payload.as_slice());
            outs.push(Output::Send { to, payload: p });
            proof {
                let full = spec_broadcast(self@.actors, payload@);
                assert(outs.deep_view() =~= full.take(i + 1)) by {
                    assert(outs.deep_view().len() == i + 1);
                    assert forall|k: int| 0 <= k < i + 1 implies outs.deep_view()[k] == full.take(
                        i + 1,
                    )[k] by {
                        if k < i {
                            assert(outs.deep_view()[k] == outs@[k].deep_view());
                            assert(outs@[k].deep_view() == pre[k]);
                            assert(pre[k] == full.take(i as int)[k]);
                        } else {
                            assert(outs@[k].deep_view() == (OutputModel::Send {
                                to: self@.actors[k],
                                payload: payload@,
                            }));
                        }
                    }
                }
            }
            i = i + 1;
        }
        assert(spec_broadcast(self@.actors, payload@).take(n as int) =~= spec_broadcast(
            self@.actors,
            payload@,
        ));
        outs
    }
}

} // verus!
