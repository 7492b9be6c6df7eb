//! The programme schedule ("repertoire") and its wire payload.
//!
//! The schedule lives in a single hub-wide slot, is replaced wholesale on
//! every update, and is rendered once into a broadcast payload.
use vstd::prelude::*;

use crate::hub::{spec_broadcast, Hub, HubModel, Output, OutputModel};
use crate::text::{dec_digits, json_quote, json_quoted, u32_to_dec};
use vstd::string::StringSliceAdditionalSpecFns;

verus! {

/// One scheduled programme entry.
pub struct Program {
    pub id: u32,
    pub name: Vec<u8>,
    pub performer: Vec<u8>,
    pub time: Vec<u8>,
}

/// The mathematical shape of a programme entry.
#[verifier::ext_equal]
pub struct ProgramModel {
    pub id: u32,
    pub name: Seq<u8>,
    pub performer: Seq<u8>,
    pub time: Seq<u8>,
}

impl View for Program {
    type V = ProgramModel;

    open spec fn view(&self) -> ProgramModel {
        ProgramModel { id: self.id, name: self.name@, performer: self.performer@, time: self.time@ }
    }
}

impl DeepView for Program {
    type V = ProgramModel;

    open spec fn deep_view(&self) -> ProgramModel {
        self.view()
    }
}

impl Clone for Program {
    fn clone(&self) -> (r: Program)
        ensures
            r@ == self@,
    {
        Program {
            id: self.id,
            name: self.name.clone(),
            performer: self.performer.clone(),
            time: self.time.clone(),
        }
    }
}

/// The full schedule: an ordered programme list and the index of the current
/// entry.
pub struct Repertoire {
    pub programs: Vec<Program>,
    pub current: u32,
}

/// The mathematical shape of the schedule.
#[verifier::ext_equal]
pub struct RepertoireModel {
    pub programs: Seq<ProgramModel>,
    pub current: u32,
}

impl View for Repertoire {
    type V = RepertoireModel;

    open spec fn view(&self) -> RepertoireModel {
        RepertoireModel { programs: self.programs.deep_view(), current: self.current }
    }
}

impl DeepView for Repertoire {
    type V = RepertoireModel;

    open spec fn deep_view(&self) -> RepertoireModel {
        self.view()
    }
}

impl Clone for Repertoire {
    fn clone(&self) -> (r: Repertoire)
        ensures
            r@ == self@,
    {
        let mut programs: Vec<Program> = Vec::new();
        let n: usize = self.programs.len();
        let mut i: usize = 0;
        while i < n
            invariant
                0 <= i <= n == self.programs@.len(),
                programs@.len() == i,
                forall|k: int| 0 <= k < i ==> programs@[k]@ == #[trigger] self.programs@[k]@,
            decreases n - i,
        {
            programs.push(self.programs[i].clone());
            i = i + 1;
        }
        assert(programs.deep_view() =~= self.programs.deep_view()) by {
            assert forall|k: int| 0 <= k < n implies programs.deep_view()[k]
                == self.programs.deep_view()[k] by {
                assert(programs@[k]@ == self.programs@[k]@);
            }
        }
        let r = Repertoire { programs, current: self.current };
        assert(r@ =~~= self@);
        r
    }
}

/// The JSON rendering of one programme entry.
pub open spec fn program_json(p: ProgramModel) -> Seq<u8> {
    "{\"id\":".spec_bytes() + dec_digits(p.id as nat) + ",\"name\":".spec_bytes() + json_quoted(
        p.name,
    ) + ",\"performer\":".spec_bytes() + json_quoted(p.performer) + ",\"time\":".spec_bytes()
        + json_quoted(p.time) + "}".spec_bytes()
}

/// The comma-separated JSON renderings of a programme list.
pub open spec fn programs_items(ps: Seq<ProgramModel>) -> Seq<u8>
    decreases ps.len(),
{
    if ps.len() == 0 {
        Seq::empty()
    } else if ps.len() == 1 {
        program_json(ps[0])
    } else {
        programs_items(ps.drop_last()) + ",".spec_bytes() + program_json(ps.last())
    }
}

/// The broadcast payload announcing a schedule, with its message-type prefix.
pub open spec fn repertoire_payload(r: RepertoireModel) -> Seq<u8> {
    "4{\"type\":\"repertoire\",\"programs\":[".spec_bytes() + programs_items(r.programs)
        + "],\"current\":".spec_bytes() + dec_digits(r.current as nat) + "}".spec_bytes()
}

fn build_program_json(p: &Program) -> (r: Vec<u8>)
    ensures
        r@ == program_json(p@),
{
    let mut out: Vec<u8> = Vec::new();
    out.extend_from_slice("{\"id\":".as_bytes());
    let mut piece = u32_to_dec(p.id);
    out.append(&mut piece);
    out.extend_from_slice(",\"name\":".as_bytes());
    let mut piece = json_quote(p.name.as_slice());
    out.append(&mut piece);
    out.extend_from_slice(",\"performer\":".as_bytes());
    let mut piece = json_quote(p.performer.as_slice());
    out.append(&mut piece);
    out.extend_from_slice(",\"time\":".as_bytes());
    let mut piece = json_quote(p.time.as_slice());
    out.append(&mut piece);
    out.extend_from_slice("}".as_bytes());
    assert(out@ =~= program_json(p@));
    out
}

proof fn lemma_programs_items_snoc(ps: Seq<ProgramModel>, i: int)
    requires
        0 <= i < ps.len(),
    ensures
        programs_items(ps.take(i + 1)) == if i == 0 {
            program_json(ps[0])
        } else {
            programs_items(ps.take(i)) + ",".spec_bytes() + program_json(ps[i])
        },
{
    let t = ps.take(i + 1);
    if i == 0 {
        assert(t.len() == 1);
        assert(t[0] == ps[0]);
    } else {
        assert(t.drop_last() =~= ps.take(i));
        assert(t.last() == ps[i]);
    }
}

/// Renders the broadcast payload for a schedule.
pub fn build_repertoire_payload(r: &Repertoire) -> (out: Vec<u8>)
    ensures
        out@ == repertoire_payload(r@),
{
    let mut out: Vec<u8> = Vec::new();
    out.extend_from_slice("4{\"type\":\"repertoire\",\"programs\":[".as_bytes());
    let ghost head = "4{\"type\":\"repertoire\",\"programs\":[".spec_bytes();
    let n: usize = r.programs.len();
    let mut i: usize = 0;
    while i < n
        invariant
            0 <= i <= n == r.programs@.len(),
            out@ == head + programs_items(r.programs.deep_view().take(i as int)),
            r@.programs == r.programs.deep_view(),
        decreases n - i,
    {
        if i > 0 {
            out.extend_from_slice(",".as_bytes());
        }
        let mut piece = build_program_json(&r.programs[i]);
        out.append(&mut piece);
        proof {
            lemma_programs_items_snoc(r.programs.deep_view(), i as int);
            assert(r.programs.deep_view()[i as int] == r.programs[i as int]@);
            assert(out@ =~= head + programs_items(r.programs.deep_view().take(i + 1)));
        }
        i = i + 1;
    }
    proof {
        assert(r.programs.deep_view().take(n as int) =~= r.programs.deep_view());
    }
    out.extend_from_slice("],\"current\":".as_bytes());
    let mut piece = u32_to_dec(r.current);
    out.append(&mut piece);
    out.extend_from_slice("}".as_bytes());
    assert(out@ =~= repertoire_payload(r@));
    out
}

/// A successful upsert replaces the cache wholesale and is announced to the
/// whole audience; a failed one changes nothing and stays silent.
pub open spec fn spec_repertoire_saved(h: HubModel, r: RepertoireModel, ok: bool) -> (
    HubModel,
    Seq<OutputModel>,
) {
    if ok {
        (HubModel { repertoire: Some(r), ..h }, spec_broadcast(h.actors, repertoire_payload(r)))
    } else {
        (h, Seq::empty())
    }
}

/// The step after storage answered an upsert of the schedule: on success the
/// cache is replaced wholesale and every audience member is sent the new
/// schedule's payload; on failure nothing changes and nothing is sent.
pub fn repertoire_saved(hub: &mut Hub, data: Repertoire, ok: bool) -> (outs: Vec<Output>)
    ensures
        final(hub)@ == spec_repertoire_saved(old(hub)@, data@, ok).0,
        outs.deep_view() == spec_repertoire_saved(old(hub)@, data@, ok).1,
{
    if ok {
        let payload = build_repertoire_payload(&data);
        let outs = hub.broadcast(&payload);
        let ghost rep_model = data@;
        hub.repertoire = Some(data);
        assert(hub@ =~~= (HubModel { repertoire: Some(rep_model), ..old(hub)@ }));
        outs
    } else {
        let outs: Vec<Output> = Vec::new();
        assert(outs.deep_view() =~= Seq::<OutputModel>::empty());
        outs
    }
}

/// The startup step after storage yielded a previously persisted schedule:
/// it becomes the cache. When storage had none, the cache simply stays
/// empty and no snapshot is ever sent.
pub fn repertoire_loaded(hub: &mut Hub, data: Repertoire)
    ensures
        final(hub)@ == (HubModel { repertoire: Some(data@), ..old(hub)@ }),
{
    let ghost rep_model = data@;
    hub.repertoire = Some(data);
    assert(hub@ =~~= (HubModel { repertoire: Some(rep_model), ..old(hub)@ }));
}

} // verus!
