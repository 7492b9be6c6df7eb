//! The framing layer: turns raw duplex frames into application messages.
//!
//! A connection's framing state owns the fragment reassembly buffer and, when
//! the connection opts in to the keepalive sub-protocol, the two heartbeat
//! deadlines. Each inbound frame is folded into the state and yields a list
//! of effects for the caller to perform: replies to the peer, application
//! messages to dispatch to the connection's role, or a stop.
use vstd::prelude::*;

use crate::constants::{LENGTH_LIMIT, PING_INTERVAL_MS, PING_TIMEOUT_MS};
use crate::text::{utf8_prefix, utf8_prefix_len};
use vstd::string::StringSliceAdditionalSpecFns;

verus! {

/// An inbound transport frame.
pub enum Frame {
    /// A complete text message.
    Text(Vec<u8>),
    /// A complete binary message.
    Binary(Vec<u8>),
    /// First chunk of a fragmented text message.
    FirstText(Vec<u8>),
    /// First chunk of a fragmented binary message.
    FirstBinary(Vec<u8>),
    /// A continuation chunk.
    Continue(Vec<u8>),
    /// The final chunk.
    Last(Vec<u8>),
    /// The peer closed the connection.
    Close,
    /// The transport reported a protocol error.
    Error,
    /// Any other transport frame; ignored.
    Other,
}

/// The mathematical shape of a frame.
#[verifier::ext_equal]
pub enum FrameModel {
    Text(Seq<u8>),
    Binary(Seq<u8>),
    FirstText(Seq<u8>),
    FirstBinary(Seq<u8>),
    Continue(Seq<u8>),
    Last(Seq<u8>),
    Close,
    Error,
    Other,
}

impl View for Frame {
    type V = FrameModel;

    open spec fn view(&self) -> FrameModel {
        match self {
            Frame::Text(v) => FrameModel::Text(v@),
            Frame::Binary(v) => FrameModel::Binary(v@),
            Frame::FirstText(v) => FrameModel::FirstText(v@),
            Frame::FirstBinary(v) => FrameModel::FirstBinary(v@),
            Frame::Continue(v) => FrameModel::Continue(v@),
            Frame::Last(v) => FrameModel::Last(v@),
            Frame::Close => FrameModel::Close,
            Frame::Error => FrameModel::Error,
            Frame::Other => FrameModel::Other,
        }
    }
}

/// What the framing layer asks its caller to do after a frame.
pub enum Effect {
    /// Send this text payload back on this connection.
    Reply(Vec<u8>),
    /// Hand this text message to the connection's role.
    DispatchText(Vec<u8>),
    /// Hand this binary message to the connection's role.
    DispatchBinary(Vec<u8>),
    /// Tear the connection down; `echo` says whether to echo a close frame
    /// first.
    Stop { echo: bool },
}

/// The mathematical shape of an effect.
#[verifier::ext_equal]
pub enum EffectModel {
    Reply(Seq<u8>),
    DispatchText(Seq<u8>),
    DispatchBinary(Seq<u8>),
    Stop { echo: bool },
}

impl View for Effect {
    type V = EffectModel;

    open spec fn view(&self) -> EffectModel {
        match self {
            Effect::Reply(v) => EffectModel::Reply(v@),
            Effect::DispatchText(v) => EffectModel::DispatchText(v@),
            Effect::DispatchBinary(v) => EffectModel::DispatchBinary(v@),
            Effect::Stop { echo } => EffectModel::Stop { echo: *echo },
        }
    }
}

impl DeepView for Effect {
    type V = EffectModel;

    open spec fn deep_view(&self) -> EffectModel {
        self.view()
    }
}

/// The framing state of one connection, as the contracts see it.
#[verifier::ext_equal]
pub struct WsView {
    pub buffer: Seq<u8>,
    pub is_string: bool,
    pub engine_io: bool,
    pub ping_deadline: Option<u64>,
    pub idle_deadline: Option<u64>,
}

/// Framing state of one live connection.
pub struct WsActor {
    tmp_buffer: Vec<u8>,
    is_tmp_buffer_string: bool,
    with_engine_io: bool,
    ping_deadline: Option<u64>,
    idle_deadline: Option<u64>,
}

impl View for WsActor {
    type V = WsView;

    closed spec fn view(&self) -> WsView {
        WsView {
            buffer: self.tmp_buffer@,
            is_string: self.is_tmp_buffer_string,
            engine_io: self.with_engine_io,
            ping_deadline: self.ping_deadline,
            idle_deadline: self.idle_deadline,
        }
    }
}

/// The reassembly buffer never holds more than the configured cap.
pub open spec fn ws_wf(s: WsView) -> bool {
    s.buffer.len() <= LENGTH_LIMIT
}

/// The opening keepalive handshake, advertising the ping schedule.
pub open spec fn handshake_payload() -> Seq<u8> {
    "0{\"pingInterval\":18320,\"pingTimeout\":10240,\"upgrades\":[]}".spec_bytes()
}

/// A chunk clipped to what still fits under the cap next to `buf`.
pub open spec fn buffer_extend(buf: Seq<u8>, chunk: Seq<u8>) -> Seq<u8> {
    let room = LENGTH_LIMIT - buf.len();
    buf + chunk.take(vstd::math::min(chunk.len() as int, room))
}

/// A first chunk clipped to the cap.
pub open spec fn buffer_first(chunk: Seq<u8>) -> Seq<u8> {
    chunk.take(vstd::math::min(chunk.len() as int, LENGTH_LIMIT as int))
}

pub open spec fn spec_refresh_idle(s: WsView, now: u64) -> WsView {
    if s.engine_io {
        WsView { idle_deadline: Some((now + PING_TIMEOUT_MS) as u64), ..s }
    } else {
        s
    }
}

pub open spec fn spec_refresh_ping(s: WsView, now: u64) -> WsView {
    WsView { ping_deadline: Some((now + PING_INTERVAL_MS) as u64), ..s }
}

/// The interpretation of a complete inbound text message. With the
/// keepalive protocol active its 1-byte prefix decides: a ping re-arms the
/// ping timer and a pong goes back; a pong re-arms the ping timer; a
/// message prefix is stripped and the rest dispatched; anything else is
/// ignored. Without the protocol the whole text is the application
/// message.
pub open spec fn spec_text_frame(s0: WsView, t: Seq<u8>, now: u64) -> (WsView, Seq<EffectModel>) {
    if s0.engine_io {
        if t.len() > 0 && t[0] == 50 {
            (spec_refresh_ping(s0, now), seq![EffectModel::Reply("3".spec_bytes())])
        } else if t.len() > 0 && t[0] == 51 {
            (spec_refresh_ping(s0, now), Seq::empty())
        } else if t.len() > 0 && t[0] == 52 {
            (s0, seq![EffectModel::DispatchText(t.skip(1))])
        } else {
            (s0, Seq::empty())
        }
    } else {
        (s0, seq![EffectModel::DispatchText(t)])
    }
}

/// What one inbound frame does to the framing state, and the effects it
/// yields. Every frame first re-arms the idle deadline when the keepalive
/// protocol is active. A finished text fragment sequence is cut to its
/// longest valid UTF-8 prefix and then read exactly as a text frame that
/// arrived whole; a finished binary sequence is dispatched as assembled.
pub open spec fn spec_handle(s: WsView, f: FrameModel, now: u64) -> (WsView, Seq<EffectModel>) {
    let s0 = spec_refresh_idle(s, now);
    match f {
        FrameModel::FirstText(b) => (
            WsView { buffer: buffer_first(b), is_string: true, ..s0 },
            Seq::empty(),
        ),
        FrameModel::FirstBinary(b) => (
            WsView { buffer: buffer_first(b), is_string: false, ..s0 },
            Seq::empty(),
        ),
        FrameModel::Continue(b) => (
            WsView { buffer: buffer_extend(s0.buffer, b), ..s0 },
            Seq::empty(),
        ),
        FrameModel::Last(b) => {
            let assembled = buffer_extend(s0.buffer, b);
            let s1 = WsView { buffer: Seq::empty(), ..s0 };
            if s0.is_string {
                spec_text_frame(s1, assembled.take(utf8_prefix_len(assembled)), now)
            } else {
                (s1, seq![EffectModel::DispatchBinary(assembled)])
            }
        },
        FrameModel::Close => (s0, seq![EffectModel::Stop { echo: true }]),
        FrameModel::Text(t) => spec_text_frame(s0, t, now),
        FrameModel::Binary(b) => (s0, seq![EffectModel::DispatchBinary(b)]),
        FrameModel::Error => (s0, seq![EffectModel::Stop { echo: false }]),
        FrameModel::Other => (s0, Seq::empty()),
    }
}

/// What the connection does when it is opened: with the keepalive protocol
/// active, send the handshake and arm both timers.
pub open spec fn spec_started(s: WsView, now: u64) -> (WsView, Seq<EffectModel>) {
    if s.engine_io {
        (
            spec_refresh_idle(spec_refresh_ping(s, now), now),
            seq![EffectModel::Reply(handshake_payload())],
        )
    } else {
        (s, Seq::empty())
    }
}

/// What a timer tick at `now` does: a passed idle deadline stops the
/// connection; otherwise a passed ping deadline sends one ping and disarms
/// itself until the peer answers.
pub open spec fn spec_timer_fired(s: WsView, now: u64) -> (WsView, Seq<EffectModel>) {
    if s.idle_deadline matches Some(d) && now >= d {
        (
            WsView { ping_deadline: None, idle_deadline: None, ..s },
            seq![EffectModel::Stop { echo: false }],
        )
    } else if s.ping_deadline matches Some(d) && now >= d {
        (WsView { ping_deadline: None, ..s }, seq![EffectModel::Reply("2".spec_bytes())])
    } else {
        (s, Seq::empty())
    }
}

/// The reassembly buffer after a first chunk and any run of further
/// chunks, folded exactly as [`spec_handle`] folds them.
pub open spec fn fold_chunks(buf: Seq<u8>, rest: Seq<Seq<u8>>) -> Seq<u8>
    decreases rest.len(),
{
    if rest.len() == 0 {
        buf
    } else {
        fold_chunks(buffer_extend(buf, rest[0]), rest.drop_first())
    }
}

proof fn lemma_extend_first(x: Seq<u8>, c: Seq<u8>)
    ensures
        buffer_extend(buffer_first(x), c) == buffer_first(x + c),
{
    if x.len() >= LENGTH_LIMIT {
        assert(buffer_extend(buffer_first(x), c) =~= buffer_first(x + c));
    } else {
        assert(x.take(x.len() as int) =~= x);
        if x.len() + c.len() <= LENGTH_LIMIT {
            assert(buffer_extend(buffer_first(x), c) =~= buffer_first(x + c));
        } else {
            assert(buffer_extend(buffer_first(x), c) =~= buffer_first(x + c));
        }
    }
}

/// Law: reassembling a fragmented message produces exactly the
/// concatenation of its chunks cut at the cap. The buffer therefore never
/// exceeds the cap, and whenever the chunks total at most the cap, the
/// reassembled message equals the payload a single complete frame would
/// have carried.
pub proof fn lemma_reassembly(first: Seq<u8>, rest: Seq<Seq<u8>>)
    ensures
        fold_chunks(buffer_first(first), rest) == buffer_first(first + rest.flatten()),
        fold_chunks(buffer_first(first), rest).len() <= LENGTH_LIMIT,
        (first + rest.flatten()).len() <= LENGTH_LIMIT ==> fold_chunks(buffer_first(first), rest)
            == first + rest.flatten(),
    decreases rest.len(),
{
    if rest.len() == 0 {
        assert(rest.flatten() =~= Seq::<u8>::empty());
        assert(first + rest.flatten() =~= first);
    } else {
        lemma_extend_first(first, rest[0]);
        lemma_reassembly(first + rest[0], rest.drop_first());
        assert((first + rest[0]) + rest.drop_first().flatten() =~= first + rest.flatten());
    }
    let total = first + rest.flatten();
    if total.len() <= LENGTH_LIMIT {
        assert(buffer_first(total) =~= total);
    }
}

/// Law: a fragmented text message whose chunks total at most the cap and
/// form valid UTF-8 produces, at its final chunk, exactly the state change
/// and effects of a single complete text frame carrying the whole payload
/// — including the keepalive prefix interpretation, so a fragmented ping,
/// pong or application message behaves as if it had arrived whole.
pub proof fn lemma_text_reassembly_matches_single(
    s: WsView,
    first: Seq<u8>,
    mid: Seq<Seq<u8>>,
    last: Seq<u8>,
    now: u64,
)
    requires
        s.is_string,
        s.buffer == fold_chunks(buffer_first(first), mid),
        (first + mid.flatten() + last).len() <= LENGTH_LIMIT,
        vstd::utf8::valid_utf8(first + mid.flatten() + last),
    ensures
        spec_handle(s, FrameModel::Last(last), now) == spec_handle(
            WsView { buffer: Seq::empty(), ..s },
            FrameModel::Text(first + mid.flatten() + last),
            now,
        ),
{
    let total = first + mid.flatten() + last;
    lemma_reassembly(first, mid);
    lemma_extend_first(first + mid.flatten(), last);
    let s0 = spec_refresh_idle(s, now);
    assert(buffer_extend(s0.buffer, last) == buffer_first(total));
    assert(buffer_first(total) =~= total);
    crate::text::lemma_utf8_prefix_len_valid(total);
    assert(total.take(utf8_prefix_len(total)) =~= total);
    let single_base = WsView { buffer: Seq::empty(), ..s };
    assert(spec_refresh_idle(single_base, now) =~~= (WsView { buffer: Seq::empty(), ..s0 }));
}

/// Law: with the keepalive protocol active, a connection whose last
/// inbound frame — of any kind — arrived at `t0` is stopped by a timer
/// tick at or after `t0 + PING_TIMEOUT_MS` with no frame in between.
pub proof fn lemma_idle_timeout_closes(s: WsView, f: FrameModel, t0: u64, t: u64)
    requires
        s.engine_io,
        t0 + PING_TIMEOUT_MS <= u64::MAX,
        t >= t0 + PING_TIMEOUT_MS,
    ensures
        spec_timer_fired(spec_handle(s, f, t0).0, t).1 == seq![EffectModel::Stop { echo: false }],
{
    let s1 = spec_handle(s, f, t0).0;
    assert(s1.idle_deadline == Some((t0 + PING_TIMEOUT_MS) as u64));
}

/// Law: a pong received before the idle deadline defers closure — a timer
/// tick strictly before `t1 + PING_TIMEOUT_MS` stops nothing, though it may
/// send a ping.
pub proof fn lemma_pong_defers_close(s: WsView, t1: u64, t: u64)
    requires
        s.engine_io,
        t1 + PING_TIMEOUT_MS <= u64::MAX,
        t < t1 + PING_TIMEOUT_MS,
    ensures
        forall|e: EffectModel|
            spec_timer_fired(spec_handle(s, FrameModel::Text(seq![51u8]), t1).0, t).1.contains(e)
                ==> !(e is Stop),
{
    let s1 = spec_handle(s, FrameModel::Text(seq![51u8]), t1).0;
    assert(seq![51u8][0] == 51u8);
    assert(s1.idle_deadline == Some((t1 + PING_TIMEOUT_MS) as u64));
    let r = spec_timer_fired(s1, t);
    assert forall|e: EffectModel| r.1.contains(e) implies !(e is Stop) by {
        if s1.ping_deadline matches Some(d) && t >= d {
            assert(r.1 =~= seq![EffectModel::Reply("2".spec_bytes())]);
        } else {
            assert(r.1 =~= Seq::<EffectModel>::empty());
        }
    }
}

impl WsActor {
    /// A fresh framing state; `with_engine_io` opts the connection in to the
    /// keepalive sub-protocol.
    pub fn new(with_engine_io: bool) -> (r: WsActor)
        ensures
            r@ == (WsView {
                buffer: Seq::empty(),
                is_string: false,
                engine_io: with_engine_io,
                ping_deadline: None,
                idle_deadline: None,
            }),
            ws_wf(r@),
    {
        let r = WsActor {
            tmp_buffer: Vec::new(),
            is_tmp_buffer_string: false,
            with_engine_io,
            ping_deadline: None,
            idle_deadline: None,
        };
        assert(r@.buffer =~= Seq::<u8>::empty());
        r
    }

    fn refresh_ping(&mut self, now: u64)
        requires
            now + PING_INTERVAL_MS <= u64::MAX,
        ensures
            final(self)@ == spec_refresh_ping(old(self)@, now),
    {
        self.ping_deadline = Some(now + PING_INTERVAL_MS);
    }

    fn refresh_idle(&mut self, now: u64)
        requires
            now + PING_TIMEOUT_MS <= u64::MAX,
        ensures
            final(self)@ == spec_refresh_idle(old(self)@, now),
    {
        if self.with_engine_io {
            self.idle_deadline = Some(now + PING_TIMEOUT_MS);
        }
    }

    /// Runs the connection-opened step at time `now`.
    pub fn started(&mut self, now: u64) -> (effects: Vec<Effect>)
        requires
            now + PING_TIMEOUT_MS <= u64::MAX,
        ensures
            final(self)@ == spec_started(old(self)@, now).0,
            effects.deep_view() == spec_started(old(self)@, now).1,
    {
        let mut effects: Vec<Effect> = Vec::new();
        if self.with_engine_io {
            let mut payload: Vec<u8> = Vec::new();
            payload.extend_from_slice(
                "0{\"pingInterval\":18320,\"pingTimeout\":10240,\"upgrades\":[]}".as_bytes(),
            );
            assert(payload@ =~= handshake_payload());
            effects.push(Effect::Reply(payload));
            self.refresh_ping(now);
            self.refresh_idle(now);
            proof {
                assert(self@ =~~= spec_started(old(self)@, now).0);
                assert(effects.deep_view() =~~= spec_started(old(self)@, now).1);
            }
        } else {
            proof {
                assert(self@ =~~= spec_started(old(self)@, now).0);
                assert(effects.deep_view() =~~= spec_started(old(self)@, now).1);
            }
        }
        effects
    }

    /// Runs a timer tick at time `now`.
    pub fn timer_fired(&mut self, now: u64) -> (effects: Vec<Effect>)
        ensures
            final(self)@ == spec_timer_fired(old(self)@, now).0,
            effects.deep_view() == spec_timer_fired(old(self)@, now).1,
    {
        let mut effects: Vec<Effect> = Vec::new();
        let idle_due: bool = match self.idle_deadline {
            Some(d) => now >= d,
            None => false,
        };
        if idle_due {
            self.ping_deadline = None;
            self.idle_deadline = None;
            effects.push(Effect::Stop { echo: false });
            proof {
                assert(self@ =~~= spec_timer_fired(old(self)@, now).0);
                assert(effects.deep_view() =~~= spec_timer_fired(old(self)@, now).1);
            }
            return effects;
        }
        let ping_due: bool = match self.ping_deadline {
            Some(d) => now >= d,
            None => false,
        };
        if ping_due {
            self.ping_deadline = None;
            let mut payload: Vec<u8> = Vec::new();
            payload.extend_from_slice("2".as_bytes());
            effects.push(Effect::Reply(payload));
            proof {
                assert(self@ =~~= spec_timer_fired(old(self)@, now).0);
                assert(effects.deep_view() =~~= spec_timer_fired(old(self)@, now).1);
            }
            return effects;
        }
        proof {
            assert(self@ =~~= spec_timer_fired(old(self)@, now).0);
            assert(effects.deep_view() =~~= spec_timer_fired(old(self)@, now).1);
        }
        effects
    }

    /// Reads one complete text message, after any reassembly.
    fn text_frame(&mut self, text: Vec<u8>, now: u64) -> (effects: Vec<Effect>)
        requires
            now + PING_INTERVAL_MS <= u64::MAX,
        ensures
            final(self)@ == spec_text_frame(old(self)@, text@, now).0,
            effects.deep_view() == spec_text_frame(old(self)@, text@, now).1,
    {
        let ghost pre = self@;
        let mut effects: Vec<Effect> = Vec::new();
        if self.with_engine_io {
            if text.len() > 0 && text[0] == 50 {
                self.refresh_ping(now);
                let mut payload: Vec<u8> = Vec::new();
                payload.extend_from_slice("3".as_bytes());
                effects.push(Effect::Reply(payload));
            } else if text.len() > 0 && text[0] == 51 {
                self.refresh_ping(now);
            } else if text.len() > 0 && text[0] == 52 {
                let mut rest: Vec<u8> = Vec::new();
                let n: usize = text.len();
                let mut i: usize = 1;
                while i < n
                    invariant
                        1 <= i <= n == text@.len(),
                        rest@ == text@.subrange(1, i as int),
                    decreases n - i,
                {
                    rest.push(text[i]);
                    assert(rest@ =~= text@.subrange(1, i + 1 as int));
                    i = i + 1;
                }
                assert(rest@ =~= text@.skip(1));
                effects.push(Effect::DispatchText(rest));
            }
        } else {
            effects.push(Effect::DispatchText(text));
        }
        proof {
            assert(self@ =~~= spec_text_frame(pre, text@, now).0);
            assert(effects.deep_view() =~~= spec_text_frame(pre, text@, now).1);
        }
        effects
    }

    /// Folds one inbound frame into the state and returns the effects.
    pub fn handle(&mut self, frame: Frame, now: u64) -> (effects: Vec<Effect>)
        requires
            ws_wf(old(self)@),
            now + PING_TIMEOUT_MS <= u64::MAX,
        ensures
            ws_wf(final(self)@),
            final(self)@ == spec_handle(old(self)@, frame@, now).0,
            effects.deep_view() == spec_handle(old(self)@, frame@, now).1,
    {
        let ghost pre = old(self)@;
        let ghost fm = frame@;
        self.refresh_idle(now);
        let ghost s0 = self@;
        let mut effects: Vec<Effect> = Vec::new();
        match frame {
            Frame::FirstText(mut bin) => {
                bin.truncate(LENGTH_LIMIT);
                proof {
                    assert(bin@ =~= buffer_first(fm->FirstText_0));
                }
                self.tmp_buffer = bin;
                self.is_tmp_buffer_string = true;
                proof {
                    assert(self@ =~~= spec_handle(pre, fm, now).0);
                    assert(effects.deep_view() =~~= spec_handle(pre, fm, now).1);
                }
            },
            Frame::FirstBinary(mut bin) => {
                bin.truncate(LENGTH_LIMIT);
                proof {
                    assert(bin@ =~= buffer_first(fm->FirstBinary_0));
                }
                self.tmp_buffer = bin;
                self.is_tmp_buffer_string = false;
                proof {
                    assert(self@ =~~= spec_handle(pre, fm, now).0);
                    assert(effects.deep_view() =~~= spec_handle(pre, fm, now).1);
                }
            },
            Frame::Continue(bin) => {
                self.extend_buffer(&bin);
                proof {
                    assert(self@ =~~= spec_handle(pre, fm, now).0);
                    assert(effects.deep_view() =~~= spec_handle(pre, fm, now).1);
                }
            },
            Frame::Last(bin) => {
                self.extend_buffer(&bin);
                let mut assembled: Vec<u8> = Vec::new();
                core::mem::swap(&mut assembled, &mut self.tmp_buffer);
                assert(self@.buffer =~= Seq::<u8>::empty());
                let ghost s1 = self@;
                if self.is_tmp_buffer_string {
                    let text = utf8_prefix(assembled.as_slice());
                    let text_effects = self.text_frame(text, now);
                    effects = text_effects;
                } else {
                    effects.push(Effect::DispatchBinary(assembled));
                }
                proof {
                    assert(self@ =~~= spec_handle(pre, fm, now).0);
                    assert(effects.deep_view() =~~= spec_handle(pre, fm, now).1);
                }
            },
            Frame::Close => {
                effects.push(Effect::Stop { echo: true });
                proof {
                    assert(self@ =~~= spec_handle(pre, fm, now).0);
                    assert(effects.deep_view() =~~= spec_handle(pre, fm, now).1);
                }
            },
            Frame::Text(text) => {
                let text_effects = self.text_frame(text, now);
                effects = text_effects;
                proof {
                    assert(self@ =~~= spec_handle(pre, fm, now).0);
                    assert(effects.deep_view() =~~= spec_handle(pre, fm, now).1);
                }
            },
            Frame::Binary(bin) => {
                effects.push(Effect::DispatchBinary(bin));
                proof {
                    assert(self@ =~~= spec_handle(pre, fm, now).0);
                    assert(effects.deep_view() =~~= spec_handle(pre, fm, now).1);
                }
            },
            Frame::Error => {
                effects.push(Effect::Stop { echo: false });
                proof {
                    assert(self@ =~~= spec_handle(pre, fm, now).0);
                    assert(effects.deep_view() =~~= spec_handle(pre, fm, now).1);
                }
            },
            Frame::Other => {
                proof {
                    assert(self@ =~~= spec_handle(pre, fm, now).0);
                    assert(effects.deep_view() =~~= spec_handle(pre, fm, now).1);
                }
            },
        }
        effects
    }

    /// Appends a chunk to the reassembly buffer, up to the remaining room
    /// under the cap.
    fn extend_buffer(&mut self, chunk: &Vec<u8>)
        requires
            ws_wf(old(self)@),
        ensures
            ws_wf(final(self)@),
            final(self)@ == (WsView { buffer: buffer_extend(old(self)@.buffer, chunk@), ..old(
                self,
            )@ }),
    {
        let room: usize = LENGTH_LIMIT - self.tmp_buffer.len();
        let take_n: usize = if chunk.len() < room {
            chunk.len()
        } else {
            room
        };
        let ghost pre = self@.buffer;
        let mut i: usize = 0;
        while i < take_n
            invariant
                0 <= i <= take_n <= chunk@.len(),
                take_n == vstd::math::min(chunk@.len() as int, LENGTH_LIMIT - pre.len()),
                self@ == (WsView { buffer: pre + chunk@.take(i as int), ..old(self)@ }),
                pre.len() + take_n <= LENGTH_LIMIT,
            decreases take_n - i,
        {
            self.tmp_buffer.push(chunk[i]);
            assert(self@.buffer =~= pre + chunk@.take(i + 1 as int));
            i = i + 1;
        }
        assert(pre + chunk@.take(0) =~= pre);
        assert(self@ =~~= (WsView { buffer: buffer_extend(pre, chunk@), ..old(self)@ }));
    }
}

} // verus!
