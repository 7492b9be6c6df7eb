//! The operator (admin) role: login, schedule updates, and moderation
//! relay.
use vstd::prelude::*;

use crate::hub::{Hub, HubModel, Output, OutputModel};
use crate::repertoire::{Program, ProgramModel, Repertoire, RepertoireModel};
use crate::text::{bytes_eq, dec_digits, json_quote, json_quoted, spec_trim, trim, u32_to_dec};
use vstd::string::StringSliceAdditionalSpecFns;

verus! {

/// A parsed operator request.
pub enum Message {
    /// Replace the programme schedule.
    RepUp { programs: Vec<Program>, current: u32 },
    /// Relay an approved submission to the emitter.
    DanChk { content: Vec<u8>, color: u32 },
}

/// The mathematical shape of an operator request.
#[verifier::ext_equal]
pub enum MessageModel {
    RepUp { programs: Seq<ProgramModel>, current: u32 },
    DanChk { content: Seq<u8>, color: u32 },
}

impl View for Message {
    type V = MessageModel;

    open spec fn view(&self) -> MessageModel {
        match self {
            Message::RepUp { programs, current } => MessageModel::RepUp {
                programs: programs.deep_view(),
                current: *current,
            },
            Message::DanChk { content, color } => MessageModel::DanChk {
                content: content@,
                color: *color,
            },
        }
    }
}

/// The operator role. A connection starts unauthenticated; the first text
/// frame trimming to the admin secret logs it in and takes the admin slot.
pub struct ChaGPTAdminActor {
    is_login: bool,
}

impl View for ChaGPTAdminActor {
    type V = bool;

    closed spec fn view(&self) -> bool {
        self.is_login
    }
}

/// The payload relaying one approved submission to the emitter.
pub open spec fn danchk_payload(content: Seq<u8>, color: u32) -> Seq<u8> {
    "4{\"content\":".spec_bytes() + json_quoted(content) + ",\"color\":".spec_bytes() + dec_digits(
        color as nat,
    ) + "}".spec_bytes()
}

/// Renders the relay payload for one approved submission.
pub fn build_danchk_payload(content: &[u8], color: u32) -> (out: Vec<u8>)
    ensures
        out@ == danchk_payload(content@, color),
{
    let mut out: Vec<u8> = Vec::new();
    out.extend_from_slice("4{\"content\":".as_bytes());
    let mut piece = json_quote(content);
    out.append(&mut piece);
    out.extend_from_slice(",\"color\":".as_bytes());
    let mut piece = u32_to_dec(color);
    out.append(&mut piece);
    out.extend_from_slice("}".as_bytes());
    assert(out@ =~= danchk_payload(content@, color));
    out
}

/// What a text frame from the admin connection `id` does.
///
/// Unauthenticated: a frame trimming to the admin secret authenticates the
/// connection, echoes an acknowledgement carrying the secret, and installs
/// the connection in the admin slot; any other frame is ignored.
///
/// Authenticated: a schedule update asks storage to persist the new
/// schedule; an approval relay sends the approved content to the current
/// emitter, if any, and never to the audience; a malformed frame is
/// ignored.
pub open spec fn spec_admin_text(login: bool, h: HubModel, id: u64, text: Seq<u8>) -> (
    bool,
    HubModel,
    Seq<OutputModel>,
) {
    if !login {
        if spec_trim(text) == h.admin_secret {
            (
                true,
                HubModel { admin: Some(id), ..h },
                seq![OutputModel::Reply("4".spec_bytes() + h.admin_secret)],
            )
        } else {
            (false, h, Seq::<OutputModel>::empty())
        }
    } else {
        match crate::json::sp_admin(text) {
            Some(m) => match m {
                MessageModel::RepUp { programs, current } => (
                    login,
                    h,
                    seq![
                        OutputModel::PersistRepertoire {
                            repertoire: RepertoireModel { programs, current },
                        },
                    ],
                ),
                MessageModel::DanChk { content, color } => (
                    login,
                    h,
                    match h.emitter {
                        Some(e) => seq![
                            OutputModel::Send { to: e, payload: danchk_payload(content, color) },
                        ],
                        None => Seq::<OutputModel>::empty(),
                    },
                ),
            },
            None => (login, h, Seq::<OutputModel>::empty()),
        }
    }
}

/// A disconnect clears the admin slot only when the disconnecting
/// connection is still its occupant.
pub open spec fn spec_admin_stopped(h: HubModel, id: u64) -> HubModel {
    HubModel {
        admin: if h.admin == Some(id) {
            None
        } else {
            h.admin
        },
        ..h
    }
}

/// Law: a disconnect from an earlier, already-superseded admin connection
/// does not clear the slot.
pub proof fn lemma_admin_stale_disconnect(h: HubModel, stale: u64, cur: u64)
    requires
        h.admin == Some(cur),
        stale != cur,
    ensures
        spec_admin_stopped(h, stale) == h,
{
    assert(spec_admin_stopped(h, stale) =~~= h);
}

/// The hub after a run of fresh admin connections each presented a frame
/// trimming to the admin secret, in order.
pub open spec fn replay_admin_logins(h: HubModel, ids: Seq<u64>, text: Seq<u8>) -> HubModel
    decreases ids.len(),
{
    if ids.len() == 0 {
        h
    } else {
        replay_admin_logins(spec_admin_text(false, h, ids[0], text).1, ids.drop_first(), text)
    }
}

/// Law: after any run of successful admin logins the slot holds exactly
/// the last connection to authenticate.
pub proof fn lemma_admin_slot_last_writer(h: HubModel, ids: Seq<u64>, text: Seq<u8>)
    requires
        ids.len() > 0,
        spec_trim(text) == h.admin_secret,
    ensures
        replay_admin_logins(h, ids, text).admin == Some(ids.last()),
        replay_admin_logins(h, ids, text).admin_secret == h.admin_secret,
    decreases ids.len(),
{
    let h1 = spec_admin_text(false, h, ids[0], text).1;
    if ids.len() == 1 {
        assert(h1.admin == Some(ids[0]));
    } else {
        lemma_admin_slot_last_writer(h1, ids.drop_first(), text);
        assert(ids.drop_first().last() == ids.last());
    }
}

impl ChaGPTAdminActor {
    /// A fresh, unauthenticated operator connection.
    pub fn new() -> (r: ChaGPTAdminActor)
        ensures
            r@ == false,
    {
        ChaGPTAdminActor { is_login: false }
    }

    /// Handles the admin connection `id` going away: the slot is cleared
    /// only if `id` still holds it, so a stale disconnect cannot evict a
    /// newer admin.
    pub fn stopped(&self, hub: &mut Hub, id: u64)
        ensures
            final(hub)@ == spec_admin_stopped(old(hub)@, id),
    {
        hub.clear_admin_if(id);
    }

    /// Handles a text frame from the admin connection `id`.
    pub fn handle_text(&mut self, hub: &mut Hub, id: u64, text: &[u8]) -> (outs: Vec<Output>)
        ensures
            final(self)@ == spec_admin_text(old(self)@, old(hub)@, id, text@).0,
            final(hub)@ == spec_admin_text(old(self)@, old(hub)@, id, text@).1,
            outs.deep_view() == spec_admin_text(old(self)@, old(hub)@, id, text@).2,
    {
        let ghost spec_r = spec_admin_text(old(self)@, old(hub)@, id, text@);
        let mut outs: Vec<Output> = Vec::new();
        if !self.is_login {
            let trimmed = trim(text);
            if bytes_eq(trimmed.as_slice(), hub.admin_secret.as_slice()) {
                self.is_login = true;
                let mut ack: Vec<u8> = Vec::new();
                ack.extend_from_slice("4".as_bytes());
                ack.extend_from_slice(hub.admin_secret.as_slice());
                assert(ack@ =~= "4".spec_bytes() + old(hub)@.admin_secret);
                outs.push(Output::Reply(ack));
                hub.set_admin(id);
                assert(outs.deep_view() =~= spec_r.2);
            } else {
                assert(outs.deep_view() =~= spec_r.2);
            }
            return outs;
        }
        match crate::json::parse_admin(text) {
            Some(m) => {
                match m {
                    Message::RepUp { programs, current } => {
                        let rep = Repertoire { programs, current };
                        outs.push(Output::PersistRepertoire { repertoire: rep });
                        assert(outs.deep_view() =~= spec_r.2);
                    },
                    Message::DanChk { content, color } => {
                        let payload = build_danchk_payload(content.as_slice(), color);
                        let target: Option<u64> = hub.current_emitter;
                        match target {
                            Some(e) => {
                                outs.push(Output::Send { to: e, payload });
                                assert(outs.deep_view() =~= spec_r.2);
                            },
                            None => {
                                assert(outs.deep_view() =~= spec_r.2);
                            },
                        }
                    },
                }
            },
            None => {
                assert(outs.deep_view() =~= spec_r.2);
            },
        }
        outs
    }
}

} // verus!
