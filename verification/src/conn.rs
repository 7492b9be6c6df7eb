//! One live connection: its framing state bound to one role, driven against
//! the shared hub.
//!
//! The caller owns the transport, the timers, and the storage collaborator.
//! It feeds connection lifecycle events and raw frames in here and performs
//! the returned [`Output`]s: replies and sends on the transport, persistence
//! requests against storage (answered through the continuation functions in
//! [`crate::danmaku`] and [`crate::repertoire`]), and stops.
use vstd::prelude::*;

use crate::admin::{spec_admin_text, ChaGPTAdminActor};
use crate::chagpt::{spec_audience_started, spec_audience_text, ChaGPTActor};
use crate::constants::PING_TIMEOUT_MS;
use crate::emitter::{spec_emitter_text, DanmakuEmitter};
use crate::hub::{hub_wf, Hub, HubModel, Output, OutputModel};
use crate::ws::{spec_handle, spec_started, spec_timer_fired, ws_wf, Effect, EffectModel, Frame, WsActor, WsView};

verus! {

/// Which of the three role variants a connection was accepted as.
pub enum RoleState {
    Audience(ChaGPTActor),
    Admin(ChaGPTAdminActor),
    Emitter(DanmakuEmitter),
}

/// The mathematical shape of a role: the admin carries its login flag.
#[verifier::ext_equal]
pub enum RoleModel {
    Audience,
    Admin { is_login: bool },
    Emitter,
}

impl View for RoleState {
    type V = RoleModel;

    open spec fn view(&self) -> RoleModel {
        match self {
            RoleState::Audience(_) => RoleModel::Audience,
            RoleState::Admin(a) => RoleModel::Admin { is_login: a@ },
            RoleState::Emitter(_) => RoleModel::Emitter,
        }
    }
}

/// One live connection.
pub struct Conn {
    pub id: u64,
    ws: WsActor,
    role: RoleState,
}

/// The mathematical shape of a connection.
#[verifier::ext_equal]
pub struct ConnModel {
    pub id: u64,
    pub ws: WsView,
    pub role: RoleModel,
}

impl View for Conn {
    type V = ConnModel;

    closed spec fn view(&self) -> ConnModel {
        ConnModel { id: self.id, ws: self.ws@, role: self.role@ }
    }
}

/// A connection is healthy when its reassembly buffer is under the cap.
pub open spec fn conn_wf(c: ConnModel) -> bool {
    ws_wf(c.ws)
}

/// What one framing effect does when it reaches the connection's role:
/// replies and stops pass through, a binary message is a no-op for every
/// role, and a text message is handled by the role.
pub open spec fn apply_effect(role: RoleModel, h: HubModel, id: u64, e: EffectModel) -> (
    RoleModel,
    HubModel,
    Seq<OutputModel>,
) {
    match e {
        EffectModel::Reply(p) => (role, h, seq![OutputModel::Reply(p)]),
        EffectModel::Stop { echo } => (role, h, seq![OutputModel::Stop { echo }]),
        EffectModel::DispatchBinary(_) => (role, h, Seq::<OutputModel>::empty()),
        EffectModel::DispatchText(t) => match role {
            RoleModel::Audience => (role, h, spec_audience_text(h, t)),
            RoleModel::Admin { is_login } => {
                let r = spec_admin_text(is_login, h, id, t);
                (RoleModel::Admin { is_login: r.0 }, r.1, r.2)
            },
            RoleModel::Emitter => (role, spec_emitter_text(h, id, t), Seq::<OutputModel>::empty()),
        },
    }
}

/// Folds a list of framing effects through the role, collecting outputs in
/// order.
pub open spec fn apply_effects(role: RoleModel, h: HubModel, id: u64, effs: Seq<EffectModel>) -> (
    RoleModel,
    HubModel,
    Seq<OutputModel>,
)
    decreases effs.len(),
{
    if effs.len() == 0 {
        (role, h, Seq::<OutputModel>::empty())
    } else {
        let step = apply_effect(role, h, id, effs[0]);
        let rest = apply_effects(step.0, step.1, id, effs.drop_first());
        (rest.0, rest.1, step.2 + rest.2)
    }
}

/// The connection-opened step: the role runs first (an audience member is
/// registered and may receive the schedule snapshot), then the keepalive
/// handshake goes out and the heartbeat timers are armed.
pub open spec fn spec_conn_started(c: ConnModel, h: HubModel, now: u64) -> (
    ConnModel,
    HubModel,
    Seq<OutputModel>,
) {
    let role_r = match c.role {
        RoleModel::Audience => spec_audience_started(h, c.id),
        _ => (h, Seq::<OutputModel>::empty()),
    };
    let ws_r = spec_started(c.ws, now);
    let ws_outs = apply_effects(c.role, role_r.0, c.id, ws_r.1);
    (ConnModel { ws: ws_r.0, ..c }, role_r.0, role_r.1 + ws_outs.2)
}

/// The step for one inbound frame: the framing layer folds it into its
/// state, and its effects run through the role in order.
pub open spec fn spec_conn_frame(c: ConnModel, h: HubModel, f: crate::ws::FrameModel, now: u64) -> (
    ConnModel,
    HubModel,
    Seq<OutputModel>,
) {
    let ws_r = spec_handle(c.ws, f, now);
    let applied = apply_effects(c.role, h, c.id, ws_r.1);
    (ConnModel { ws: ws_r.0, role: applied.0, ..c }, applied.1, applied.2)
}

/// The step for a heartbeat timer tick.
pub open spec fn spec_conn_timer(c: ConnModel, h: HubModel, now: u64) -> (
    ConnModel,
    HubModel,
    Seq<OutputModel>,
) {
    let ws_r = spec_timer_fired(c.ws, now);
    let applied = apply_effects(c.role, h, c.id, ws_r.1);
    (ConnModel { ws: ws_r.0, role: applied.0, ..c }, applied.1, applied.2)
}

impl Conn {
    /// Wraps a newly accepted connection in its framing state and role. All
    /// three role endpoints opt in to the keepalive sub-protocol.
    pub fn new(id: u64, role: RoleState, with_engine_io: bool) -> (r: Conn)
        ensures
            r@.id == id,
            r@.role == role@,
            r@.ws == (WsView {
                buffer: Seq::empty(),
                is_string: false,
                engine_io: with_engine_io,
                ping_deadline: None,
                idle_deadline: None,
            }),
            conn_wf(r@),
    {
        Conn { id, ws: WsActor::new(with_engine_io), role }
    }

    fn apply(&mut self, hub: &mut Hub, effects: Vec<Effect>) -> (outs: Vec<Output>)
        ensures
            final(self)@ == (ConnModel {
                role: apply_effects(old(self)@.role, old(hub)@, old(self)@.id, effects.deep_view()).0,
                ..old(self)@
            }),
            final(hub)@ == apply_effects(
                old(self)@.role,
                old(hub)@,
                old(self)@.id,
                effects.deep_view(),
            ).1,
            outs.deep_view() == apply_effects(
                old(self)@.role,
                old(hub)@,
                old(self)@.id,
                effects.deep_view(),
            ).2,
    {
        let ghost em = effects.deep_view();
        let ghost id_g = self@.id;
        let mut outs: Vec<Output> = Vec::new();
        let n: usize = effects.len();
        proof {
            assert(em.len() == n);
        }
        let mut i: usize = 0;
        let ghost goal = apply_effects(old(self)@.role, old(hub)@, id_g, em);
        assert(em.skip(0) =~= em);
        while i < n
            invariant
                0 <= i <= n == em.len(),
                n == effects@.len(),
                self@.id == id_g,
                self@.ws == old(self)@.ws,
                goal == apply_effects(old(self)@.role, old(hub)@, id_g, em),
                ({
                    let rest = apply_effects(self@.role, hub@, id_g, em.skip(i as int));
                    goal == (rest.0, rest.1, outs.deep_view() + rest.2)
                }),
                forall|k: int| 0 <= k < n ==> em[k] == #[trigger] effects@[k]@,
            decreases n - i,
        {
            let ghost pre_outs = outs.deep_view();
            let ghost pre_role = self@.role;
            let ghost pre_hub = hub@;
            let ghost pre_seq = outs@;
            proof {
                assert(pre_outs.len() == outs@.len());
                assert(em.skip(i as int)[0] == em[i as int]);
                assert(em.skip(i as int).drop_first() =~= em.skip(i + 1));
                assert(em[i as int] == effects@[i as int]@);
            }
            let e = &effects[i];
            let ghost applied = apply_effect(pre_role, pre_hub, id_g, em[i as int]);
            let mut step: Vec<Output> = Vec::new();
            match e {
                Effect::Reply(p) => {
                    let copy = crate::text::clone_bytes(p.as_slice());
                    step.push(Output::Reply(copy));
                    assert(step.deep_view() =~= applied.2);
                },
                Effect::Stop { echo } => {
                    step.push(Output::Stop { echo: *echo });
                    assert(step.deep_view() =~= applied.2);
                },
                Effect::DispatchBinary(_) => {
                    assert(step.deep_view() =~= applied.2);
                },
                Effect::DispatchText(t) => {
                    match &mut self.role {
                        RoleState::Audience(actor) => {
                            let mut role_outs = actor.handle_text(hub, t.as_slice());
                            let ghost ro_dv = role_outs.deep_view();
                            let ghost ro_seq = role_outs@;
                            proof {
                                crate::hub::lemma_outputs_deep_view(role_outs);
                            }
                            step.append(&mut role_outs);
                            proof {
                                crate::hub::lemma_outputs_deep_view(step);
                                assert(step@ =~= ro_seq);
                                assert(step.deep_view() =~= ro_dv);
                                assert(step.deep_view() =~= applied.2);
                            }
                        },
                        RoleState::Admin(actor) => {
                            let id_now = self.id;
                            let mut role_outs = actor.handle_text(hub, id_now, t.as_slice());
                            let ghost ro_dv = role_outs.deep_view();
                            let ghost ro_seq = role_outs@;
                            proof {
                                crate::hub::lemma_outputs_deep_view(role_outs);
                            }
                            step.append(&mut role_outs);
                            proof {
                                crate::hub::lemma_outputs_deep_view(step);
                                assert(step@ =~= ro_seq);
                                assert(step.deep_view() =~= ro_dv);
                                assert(step.deep_view() =~= applied.2);
                            }
                        },
                        RoleState::Emitter(actor) => {
                            let id_now = self.id;
                            actor.handle_text(hub, id_now, t.as_slice());
                            assert(step.deep_view() =~= applied.2);
                        },
                    }
                },
            }
            proof {
                assert(self@.role == applied.0);
                assert(hub@ == applied.1);
                assert(step.deep_view() == applied.2);
            }
            let ghost step_dv = step.deep_view();
            let ghost step_seq = step@;
            proof {
                crate::hub::lemma_outputs_deep_view(outs);
                crate::hub::lemma_outputs_deep_view(step);
            }
            outs.append(&mut step);
            proof {
                assert(outs@ == pre_seq + step_seq);
                assert(outs.deep_view() =~= pre_outs + step_dv) by {
                    assert(outs.deep_view().len() == pre_seq.len() + step_seq.len());
                    assert forall|x: int| 0 <= x < outs.deep_view().len() implies outs.deep_view()[x]
                        == (pre_outs + step_dv)[x] by {
                        assert(outs.deep_view()[x] == outs@[x]@);
                        if x < pre_seq.len() {
                            assert(outs@[x] == pre_seq[x]);
                            assert(pre_outs[x] == pre_seq[x]@);
                        } else {
                            assert(outs@[x] == step_seq[x - pre_seq.len()]);
                            assert(step_dv[x - pre_seq.len()] == step_seq[x - pre_seq.len()]@);
                        }
                    }
                }
                let rest_new = apply_effects(self@.role, hub@, id_g, em.skip(i + 1));
                assert(apply_effects(pre_role, pre_hub, id_g, em.skip(i as int)) == (
                    rest_new.0,
                    rest_new.1,
                    applied.2 + rest_new.2,
                ));
                assert(outs.deep_view() + rest_new.2 =~= pre_outs + (applied.2 + rest_new.2));
            }
            i = i + 1;
        }
        proof {
            assert(em.skip(n as int) =~= Seq::<EffectModel>::empty());
            assert(outs.deep_view() + Seq::<OutputModel>::empty() =~= outs.deep_view());
            assert(self@ =~~= (ConnModel {
                role: apply_effects(old(self)@.role, old(hub)@, old(self)@.id, em).0,
                ..old(self)@
            }));
        }
        outs
    }

    /// Runs the connection-opened step at time `now`: the role's connect
    /// hook first, then the keepalive handshake.
    pub fn started(&mut self, hub: &mut Hub, now: u64) -> (outs: Vec<Output>)
        requires
            hub_wf(old(hub)@),
            conn_wf(old(self)@),
            now + PING_TIMEOUT_MS <= u64::MAX,
        ensures
            hub_wf(final(hub)@),
            conn_wf(final(self)@),
            final(self)@ == spec_conn_started(old(self)@, old(hub)@, now).0,
            final(hub)@ == spec_conn_started(old(self)@, old(hub)@, now).1,
            outs.deep_view() == spec_conn_started(old(self)@, old(hub)@, now).2,
    {
        let ghost c0 = self@;
        let ghost h0 = old(hub)@;
        let mut outs: Vec<Output> = Vec::new();
        match &self.role {
            RoleState::Audience(_) => {
                let actor = ChaGPTActor;
                let role_outs = actor.started(hub, self.id);
                crate::hub::append_outputs(&mut outs, role_outs);
            },
            _ => {},
        }
        let ghost h1 = hub@;
        proof {
            assert(h1 == spec_conn_started(c0, h0, now).1);
            assert(outs.deep_view() =~= (match c0.role {
                RoleModel::Audience => spec_audience_started(h0, c0.id).1,
                _ => Seq::<OutputModel>::empty(),
            }));
        }
        let effs = self.ws.started(now);
        let ws_outs = self.apply(hub, effs);
        proof {
            lemma_apply_effects_actors(c0.role, h1, c0.id, effs.deep_view());
        }
        crate::hub::append_outputs(&mut outs, ws_outs);
        proof {
            let spec_r = spec_conn_started(c0, h0, now);
            let ws_r = crate::ws::spec_started(c0.ws, now);
            assert(effs.deep_view() == ws_r.1);
            assert forall|k: int| 0 <= k < ws_r.1.len() implies (ws_r.1[k] is Reply || ws_r.1[k]
                is Stop) by {
                if c0.ws.engine_io {
                    assert(ws_r.1 =~= seq![EffectModel::Reply(crate::ws::handshake_payload())]);
                }
            }
            lemma_apply_effects_slots_only(c0.role, h1, c0.id, ws_r.1);
            let folded = apply_effects(c0.role, h1, c0.id, ws_r.1);
            assert(folded.0 == c0.role);
            assert(folded.1 == h1);
            assert(self@ =~~= spec_r.0);
            assert(hub@ =~~= spec_r.1);
            assert(outs.deep_view() =~= spec_r.2);
        }
        outs
    }

    /// Runs the step for one inbound frame at time `now`.
    pub fn handle_frame(&mut self, hub: &mut Hub, frame: Frame, now: u64) -> (outs: Vec<Output>)
        requires
            hub_wf(old(hub)@),
            conn_wf(old(self)@),
            now + PING_TIMEOUT_MS <= u64::MAX,
        ensures
            hub_wf(final(hub)@),
            conn_wf(final(self)@),
            final(self)@ == spec_conn_frame(old(self)@, old(hub)@, frame@, now).0,
            final(hub)@ == spec_conn_frame(old(self)@, old(hub)@, frame@, now).1,
            outs.deep_view() == spec_conn_frame(old(self)@, old(hub)@, frame@, now).2,
    {
        let ghost c0 = self@;
        let ghost h0 = old(hub)@;
        let ghost fm = frame@;
        let effs = self.ws.handle(frame, now);
        let outs = self.apply(hub, effs);
        proof {
            let spec_r = spec_conn_frame(c0, h0, fm, now);
            lemma_apply_effects_actors(c0.role, h0, c0.id, effs.deep_view());
            assert(self@ =~~= spec_r.0);
        }
        outs
    }

    /// Runs a heartbeat timer tick at time `now`.
    pub fn timer_fired(&mut self, hub: &mut Hub, now: u64) -> (outs: Vec<Output>)
        requires
            hub_wf(old(hub)@),
            conn_wf(old(self)@),
        ensures
            hub_wf(final(hub)@),
            conn_wf(final(self)@),
            final(self)@ == spec_conn_timer(old(self)@, old(hub)@, now).0,
            final(hub)@ == spec_conn_timer(old(self)@, old(hub)@, now).1,
            outs.deep_view() == spec_conn_timer(old(self)@, old(hub)@, now).2,
    {
        let ghost c0 = self@;
        let ghost h0 = old(hub)@;
        let effs = self.ws.timer_fired(now);
        let outs = self.apply(hub, effs);
        proof {
            let spec_r = spec_conn_timer(c0, h0, now);
            lemma_apply_effects_actors(c0.role, h0, c0.id, effs.deep_view());
            assert(self@ =~~= spec_r.0);
        }
        outs
    }

    /// Runs the teardown step once the connection has stopped: an audience
    /// member leaves the registry, and an admin or emitter releases its
    /// slot — but only if it still holds it, so a stale disconnect cannot
    /// evict a newer occupant.
    pub fn stopped(&mut self, hub: &mut Hub)
        requires
            hub_wf(old(hub)@),
        ensures
            hub_wf(final(hub)@),
            final(self)@ == old(self)@,
            old(self)@.role is Audience ==> {
                &&& !final(hub)@.actors.contains(old(self)@.id)
                &&& forall|x: u64|
                    x != old(self)@.id ==> (final(hub)@.actors.contains(x) == old(
                        hub,
                    )@.actors.contains(x))
                &&& final(hub)@ == (HubModel { actors: final(hub)@.actors, ..old(hub)@ })
            },
            old(self)@.role is Admin ==> final(hub)@ == crate::admin::spec_admin_stopped(
                old(hub)@,
                old(self)@.id,
            ),
            old(self)@.role is Emitter ==> final(hub)@ == crate::emitter::spec_emitter_stopped(
                old(hub)@,
                old(self)@.id,
            ),
    {
        match &self.role {
            RoleState::Audience(_) => {
                let actor = ChaGPTActor;
                actor.stopped(hub, self.id);
            },
            RoleState::Admin(actor) => {
                actor.stopped(hub, self.id);
            },
            RoleState::Emitter(_) => {
                let actor = DanmakuEmitter;
                actor.stopped(hub, self.id);
            },
        }
    }
}

/// Folding framing effects through a role never touches the audience
/// registry: only connect and disconnect do.
pub proof fn lemma_apply_effects_actors(
    role: RoleModel,
    h: HubModel,
    id: u64,
    effs: Seq<EffectModel>,
)
    ensures
        apply_effects(role, h, id, effs).1.actors == h.actors,
    decreases effs.len(),
{
    if effs.len() != 0 {
        let step = apply_effect(role, h, id, effs[0]);
        lemma_apply_effects_actors(step.0, step.1, id, effs.drop_first());
    }
}

/// Folding effects that are only replies or stops changes neither the role
/// nor the hub.
pub proof fn lemma_apply_effects_slots_only(
    role: RoleModel,
    h: HubModel,
    id: u64,
    effs: Seq<EffectModel>,
)
    requires
        forall|k: int|
            0 <= k < effs.len() ==> (effs[k] is Reply || effs[k] is Stop),
    ensures
        apply_effects(role, h, id, effs).0 == role,
        apply_effects(role, h, id, effs).1 == h,
    decreases effs.len(),
{
    if effs.len() != 0 {
        assert(effs[0] is Reply || effs[0] is Stop);
        let step = apply_effect(role, h, id, effs[0]);
        assert forall|k: int| 0 <= k < effs.drop_first().len() implies (effs.drop_first()[k]
            is Reply || effs.drop_first()[k] is Stop) by {
            assert(effs.drop_first()[k] == effs[k + 1]);
        }
        lemma_apply_effects_slots_only(step.0, step.1, id, effs.drop_first());
    }
}

} // verus!
