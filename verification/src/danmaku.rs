//! Audience submissions ("danmaku") and their broadcast envelope.
use vstd::prelude::*;

use crate::hub::{spec_broadcast, Hub, HubModel, Output, OutputModel};
use crate::text::{dec_digits, json_quote, json_quoted, u32_to_dec, u64_to_dec};
use vstd::string::StringSliceAdditionalSpecFns;

verus! {

/// A submission that storage accepted: the assigned id, the content, the
/// submission instant in milliseconds, and the packed RGB colour.
pub struct Danmaku {
    pub id: u32,
    pub content: Vec<u8>,
    pub time: u64,
    pub color: u32,
}

/// The mathematical shape of an accepted submission.
#[verifier::ext_equal]
pub struct DanmakuModel {
    pub id: u32,
    pub content: Seq<u8>,
    pub time: u64,
    pub color: u32,
}

impl View for Danmaku {
    type V = DanmakuModel;

    open spec fn view(&self) -> DanmakuModel {
        DanmakuModel { id: self.id, content: self.content@, time: self.time, color: self.color }
    }
}

/// A parsed audience request.
pub enum Message {
    /// A submission proposal with its content and colour.
    Propose { content: Vec<u8>, color: u32 },
}

/// The mathematical shape of an audience request.
#[verifier::ext_equal]
pub enum MessageModel {
    Propose { content: Seq<u8>, color: u32 },
}

impl View for Message {
    type V = MessageModel;

    open spec fn view(&self) -> MessageModel {
        match self {
            Message::Propose { content, color } => MessageModel::Propose {
                content: content@,
                color: *color,
            },
        }
    }
}

/// The broadcast envelope for an accepted submission, with its message-type
/// prefix.
pub open spec fn danmaku_envelope(d: DanmakuModel) -> Seq<u8> {
    "4{\"type\":\"danmaku\",\"id\":".spec_bytes() + dec_digits(d.id as nat)
        + ",\"content\":".spec_bytes() + json_quoted(d.content) + ",\"time\":".spec_bytes()
        + dec_digits(d.time as nat) + ",\"color\":".spec_bytes() + dec_digits(d.color as nat)
        + "}".spec_bytes()
}

/// Renders the broadcast envelope for an accepted submission.
pub fn build_danmaku_envelope(d: &Danmaku) -> (out: Vec<u8>)
    ensures
        out@ == danmaku_envelope(d@),
{
    let mut out: Vec<u8> = Vec::new();
    out.extend_from_slice("4{\"type\":\"danmaku\",\"id\":".as_bytes());
    let mut piece = u32_to_dec(d.id);
    out.append(&mut piece);
    out.extend_from_slice(",\"content\":".as_bytes());
    let mut piece = json_quote(d.content.as_slice());
    out.append(&mut piece);
    out.extend_from_slice(",\"time\":".as_bytes());
    let mut piece = u64_to_dec(d.time);
    out.append(&mut piece);
    out.extend_from_slice(",\"color\":".as_bytes());
    let mut piece = u32_to_dec(d.color);
    out.append(&mut piece);
    out.extend_from_slice("}".as_bytes());
    assert(out@ =~= danmaku_envelope(d@));
    out
}

/// The envelope goes to every audience member, and to the admin slot's
/// occupant for moderation visibility. Under the canonical moderated
/// policy the emitter only hears of content the admin relays explicitly;
/// a hub configured with the direct shortcut also sends the envelope
/// straight to the current emitter.
pub open spec fn spec_danmaku_persisted(h: HubModel, d: DanmakuModel) -> Seq<OutputModel> {
    let env = danmaku_envelope(d);
    spec_broadcast(h.actors, env) + (match h.admin {
        Some(a) => seq![OutputModel::Send { to: a, payload: env }],
        None => Seq::empty(),
    }) + (if h.direct_to_emitter && h.emitter is Some {
        seq![OutputModel::Send { to: h.emitter.unwrap(), payload: env }]
    } else {
        Seq::<OutputModel>::empty()
    })
}

/// What the law [`lemma_submission_pipeline`] states, spelt out over the
/// parse result of the submission text.
pub open spec fn submission_pipeline_law(text: Seq<u8>, h: HubModel, id: u32, time: u64) -> bool {
    match crate::json::sp_propose(text) {
        Some(m) => match m {
            MessageModel::Propose { content, color } => {
                if crate::chagpt::within_content_limit(h, content) {
                    let env = danmaku_envelope(DanmakuModel { id, content, time, color });
                    let persisted = spec_danmaku_persisted(
                        h,
                        DanmakuModel { id, content, time, color },
                    );
                    &&& crate::chagpt::spec_audience_text(h, text) == seq![
                        OutputModel::PersistDanmaku { content, color },
                    ]
                    &&& persisted.len() == h.actors.len() + (if h.admin is Some {
                        1int
                    } else {
                        0int
                    }) + (if h.direct_to_emitter && h.emitter is Some {
                        1int
                    } else {
                        0int
                    })
                    &&& forall|k: int|
                        0 <= k < h.actors.len() ==> persisted[k] == (OutputModel::Send {
                            to: h.actors[k],
                            payload: env,
                        })
                    &&& (h.admin matches Some(a) ==> persisted[h.actors.len() as int] == (
                    OutputModel::Send { to: a, payload: env }))
                    &&& (h.direct_to_emitter && h.emitter is Some ==> persisted.last() == (
                    OutputModel::Send { to: h.emitter.unwrap(), payload: env }))
                    &&& (!h.direct_to_emitter ==> forall|k: int|
                        0 <= k < persisted.len() && h.emitter is Some && h.emitter
                            != h.admin && !h.actors.contains(h.emitter.unwrap())
                            ==> persisted[k] != (OutputModel::Send {
                            to: h.emitter.unwrap(),
                            payload: env,
                        }))
                } else {
                    crate::chagpt::spec_audience_text(h, text) == Seq::<OutputModel>::empty()
                }
            },
        },
        None => crate::chagpt::spec_audience_text(h, text) == Seq::<OutputModel>::empty(),
    }
}

/// Law: a well-formed submission whose content is within the cap asks
/// storage for exactly one insert carrying that content and colour, and —
/// once storage assigns an id — exactly one envelope carrying that id,
/// content, colour and timestamp reaches every audience member and the
/// current admin; an oversized or malformed submission asks for nothing,
/// so it is never persisted and never broadcast.
pub proof fn lemma_submission_pipeline(text: Seq<u8>, h: HubModel, id: u32, time: u64)
    ensures
        submission_pipeline_law(text, h, id, time),
{
    match crate::json::sp_propose(text) {
        Some(m) => match m {
            MessageModel::Propose { content, color } => {
                if crate::chagpt::within_content_limit(h, content) {
                    let d = DanmakuModel { id, content, time, color };
                    let env = danmaku_envelope(d);
                    let persisted = spec_danmaku_persisted(h, d);
                    assert(crate::chagpt::spec_audience_text(h, text) =~= seq![
                        OutputModel::PersistDanmaku { content, color },
                    ]);
                    assert forall|k: int| 0 <= k < h.actors.len() implies persisted[k] == (
                    OutputModel::Send { to: h.actors[k], payload: env }) by {
                        assert(spec_broadcast(h.actors, env)[k] == (OutputModel::Send {
                            to: h.actors[k],
                            payload: env,
                        }));
                    }
                    if !h.direct_to_emitter && h.emitter is Some && h.emitter != h.admin
                        && !h.actors.contains(h.emitter.unwrap()) {
                        let e = h.emitter.unwrap();
                        assert forall|k: int| 0 <= k < persisted.len() implies persisted[k] != (
                        OutputModel::Send { to: e, payload: env }) by {
                            if k < h.actors.len() {
                                assert(persisted[k] == (OutputModel::Send {
                                    to: h.actors[k],
                                    payload: env,
                                }));
                                assert(h.actors.contains(h.actors[k]));
                            }
                        }
                    }
                } else {
                    assert(crate::chagpt::spec_audience_text(h, text) =~= Seq::<
                        OutputModel,
                    >::empty());
                }
            },
        },
        None => {
            assert(crate::chagpt::spec_audience_text(h, text) =~= Seq::<OutputModel>::empty());
        },
    }
}

/// The routing step after storage accepted a submission: exactly one
/// broadcast envelope, carrying the same content and colour and the id that
/// storage assigned, goes to the whole audience, to the current admin, and
/// — only under the direct shortcut — to the current emitter.
pub fn danmaku_persisted(hub: &Hub, d: &Danmaku) -> (outs: Vec<Output>)
    ensures
        outs.deep_view() == spec_danmaku_persisted(hub@, d@),
{
    let env = build_danmaku_envelope(d);
    let mut outs = hub.broadcast(&env);
    let send_admin: Option<u64> = hub.current_admin;
    match send_admin {
        Some(a) => {
            let ghost base = outs.deep_view();
            proof {
                assert(base.len() == outs@.len());
            }
            let payload = crate::text::clone_bytes(env.as_slice());
            outs.push(Output::Send { to: a, payload });
            proof {
                assert(outs.deep_view() =~= base.push(
                    OutputModel::Send { to: a, payload: danmaku_envelope(d@) },
                )) by {
                    assert(outs.deep_view().len() == base.len() + 1);
                    assert forall|k: int| 0 <= k < outs.deep_view().len() implies outs.deep_view()[k]
                        == base.push(
                        OutputModel::Send { to: a, payload: danmaku_envelope(d@) },
                    )[k] by {
                        assert(outs.deep_view()[k] == outs@[k].deep_view());
                        if k < base.len() {
                            assert(outs@[k].deep_view() == base[k]);
                        }
                    }
                }
            }
        },
        None => {},
    }
    let direct: Option<u64> = if hub.direct_to_emitter {
        hub.current_emitter
    } else {
        None
    };
    match direct {
        Some(e) => {
            let ghost base = outs.deep_view();
            proof {
                assert(base.len() == outs@.len());
            }
            outs.push(Output::Send { to: e, payload: env });
            proof {
                assert(outs.deep_view() =~= base.push(
                    OutputModel::Send { to: e, payload: danmaku_envelope(d@) },
                )) by {
                    assert(outs.deep_view().len() == base.len() + 1);
                    assert forall|k: int| 0 <= k < outs.deep_view().len() implies outs.deep_view()[k]
                        == base.push(
                        OutputModel::Send { to: e, payload: danmaku_envelope(d@) },
                    )[k] by {
                        assert(outs.deep_view()[k] == outs@[k].deep_view());
                        if k < base.len() {
                            assert(outs@[k].deep_view() == base[k]);
                        }
                    }
                }
            }
        },
        None => {},
    }
    proof {
        assert(outs.deep_view() =~= spec_danmaku_persisted(hub@, d@));
    }
    outs
}

} // verus!
