//! The lottery feature's block store: an ordered collection of fetched
//! chain blocks and the set of heights already handed out.
//!
//! An outside scraper keeps the store filled; a lottery request takes the
//! highest block not yet used and announces it to the current admin.
use vstd::prelude::*;

use crate::hub::{Hub, HubModel, Output, OutputModel};
use crate::text::{all_digits, dec_digits, dec_val, parse_dec, parse_dec_u32, u32_to_dec, u64_to_dec};
use vstd::string::StringSliceAdditionalSpecFns;

verus! {

/// One fetched chain block: its hash (hex, without the `0x` prefix), its
/// height, and its timestamp in seconds.
pub struct Block {
    pub hash: Vec<u8>,
    pub height: u32,
    pub time: u64,
}

/// The mathematical shape of a block.
#[verifier::ext_equal]
pub struct BlockModel {
    pub hash: Seq<u8>,
    pub height: u32,
    pub time: u64,
}

impl View for Block {
    type V = BlockModel;

    open spec fn view(&self) -> BlockModel {
        BlockModel { hash: self.hash@, height: self.height, time: self.time }
    }
}

impl DeepView for Block {
    type V = BlockModel;

    open spec fn deep_view(&self) -> BlockModel {
        self.view()
    }
}

impl Clone for Block {
    fn clone(&self) -> (r: Block)
        ensures
            r@ == self@,
    {
        Block {
            hash: crate::text::clone_bytes(self.hash.as_slice()),
            height: self.height,
            time: self.time,
        }
    }
}

/// The block store: blocks in strictly ascending height order, and the
/// heights already handed out to lottery draws.
pub struct BlockStore {
    pub blocks: Vec<Block>,
    pub ban: Vec<u32>,
}

/// The mathematical shape of the store.
#[verifier::ext_equal]
pub struct StoreModel {
    pub blocks: Seq<BlockModel>,
    pub ban: Seq<u32>,
}

impl View for BlockStore {
    type V = StoreModel;

    open spec fn view(&self) -> StoreModel {
        StoreModel { blocks: self.blocks.deep_view(), ban: self.ban@ }
    }
}

/// Heights are strictly ascending (so each occurs once), and every stored
/// timestamp is small enough to render in milliseconds.
pub open spec fn store_wf(s: StoreModel) -> bool {
    &&& forall|i: int, j: int|
        0 <= i < j < s.blocks.len() ==> s.blocks[i].height < s.blocks[j].height
    &&& forall|i: int| 0 <= i < s.blocks.len() ==> #[trigger] s.blocks[i].time <= u64::MAX / 1000
}

/// The block a lottery draw takes: the highest-height block whose height
/// was not yet handed out.
pub open spec fn best_block(blocks: Seq<BlockModel>, ban: Seq<u32>) -> Option<BlockModel>
    decreases blocks.len(),
{
    if blocks.len() == 0 {
        None
    } else if !ban.contains(blocks.last().height) {
        Some(blocks.last())
    } else {
        best_block(blocks.drop_last(), ban)
    }
}

impl BlockStore {
    /// An empty store.
    pub fn new() -> (r: BlockStore)
        ensures
            r@.blocks == Seq::<BlockModel>::empty(),
            r@.ban == Seq::<u32>::empty(),
            store_wf(r@),
    {
        let r = BlockStore { blocks: Vec::new(), ban: Vec::new() };
        assert(r@.blocks =~= Seq::<BlockModel>::empty());
        r
    }

    fn ban_contains(&self, h: u32) -> (r: bool)
        ensures
            r == self@.ban.contains(h),
    {
        let n: usize = self.ban.len();
        let mut i: usize = 0;
        while i < n
            invariant
                0 <= i <= n == self@.ban.len(),
                forall|k: int| 0 <= k < i ==> self@.ban[k] != h,
            decreases n - i,
        {
            if self.ban[i] == h {
                return true;
            }
            i = i + 1;
        }
        assert(!self@.ban.contains(h));
        false
    }
}

/// Takes the highest not-yet-used block for a lottery draw, marking its
/// height as used; once every stored block is used, nothing is left to
/// draw.
pub fn fetch(store: &mut BlockStore) -> (r: Option<Block>)
    requires
        store_wf(old(store)@),
    ensures
        store_wf(final(store)@),
        final(store)@.blocks == old(store)@.blocks,
        match r {
            Some(b) => best_block(old(store)@.blocks, old(store)@.ban) == Some(b@)
                && final(store)@.ban == old(store)@.ban.push(b@.height),
            None => best_block(old(store)@.blocks, old(store)@.ban) is None && final(store)@.ban
                == old(store)@.ban,
        },
{
    let ghost blocks0 = store@.blocks;
    let ghost ban0 = store@.ban;
    let n: usize = store.blocks.len();
    proof {
        assert(blocks0.len() == n);
    }
    let mut i: usize = n;
    assert(blocks0.take(n as int) =~= blocks0);
    while i > 0
        invariant
            0 <= i <= n == blocks0.len(),
            old(store)@.blocks == blocks0,
            old(store)@.ban == ban0,
            store@.blocks == blocks0,
            store@.ban == ban0,
            store_wf(store@),
            best_block(blocks0, ban0) == best_block(blocks0.take(i as int), ban0),
        decreases i,
    {
        let ghost pre = blocks0.take(i as int);
        proof {
            assert(pre.last() == blocks0[i - 1]);
            assert(pre.drop_last() =~= blocks0.take(i - 1));
            assert(blocks0[i - 1] == store.blocks@[i - 1]@);
        }
        let h: u32 = store.blocks[i - 1].height;
        if !store.ban_contains(h) {
            let b = store.blocks[i - 1].clone();
            store.ban.push(h);
            proof {
                assert(best_block(blocks0, ban0) == Some(b@));
                assert(store@.blocks =~= blocks0);
                assert(store@.ban =~= ban0.push(b@.height));
            }
            return Some(b);
        }
        i = i - 1;
    }
    proof {
        assert(blocks0.take(0) =~= Seq::<BlockModel>::empty());
    }
    None
}

/// The position where a block of height `h` belongs: the number of stored
/// blocks with a smaller height.
spec fn insert_pos(blocks: Seq<BlockModel>, h: u32) -> int
    decreases blocks.len(),
{
    if blocks.len() == 0 {
        0
    } else if blocks[0].height < h {
        1 + insert_pos(blocks.drop_first(), h)
    } else {
        0
    }
}

proof fn lemma_insert_pos(blocks: Seq<BlockModel>, h: u32)
    requires
        forall|i: int, j: int| 0 <= i < j < blocks.len() ==> blocks[i].height < blocks[j].height,
    ensures
        0 <= insert_pos(blocks, h) <= blocks.len(),
        forall|i: int| 0 <= i < insert_pos(blocks, h) ==> #[trigger] blocks[i].height < h,
        insert_pos(blocks, h) < blocks.len() ==> blocks[insert_pos(blocks, h)].height >= h,
    decreases blocks.len(),
{
    if blocks.len() != 0 && blocks[0].height < h {
        let t = blocks.drop_first();
        assert forall|i: int, j: int| 0 <= i < j < t.len() implies t[i].height < t[j].height by {
            assert(t[i] == blocks[i + 1]);
            assert(t[j] == blocks[j + 1]);
        }
        lemma_insert_pos(t, h);
        assert forall|i: int| 0 <= i < insert_pos(blocks, h) implies #[trigger] blocks[i].height
            < h by {
            if i > 0 {
                assert(t[i - 1].height < h);
            }
        }
        if insert_pos(blocks, h) < blocks.len() {
            assert(t[insert_pos(blocks, h) - 1].height >= h);
        }
    }
}

/// Puts a fetched block into the store, replacing any block already stored
/// at the same height, and keeping the height order.
pub fn insert_block(store: &mut BlockStore, b: Block)
    requires
        store_wf(old(store)@),
        b@.time <= u64::MAX / 1000,
    ensures
        store_wf(final(store)@),
        final(store)@.ban == old(store)@.ban,
        forall|i: int|
            0 <= i < final(store)@.blocks.len() ==> (#[trigger] final(store)@.blocks[i] == b@
                || old(store)@.blocks.contains(final(store)@.blocks[i])),
        exists|i: int|
            0 <= i < final(store)@.blocks.len() && #[trigger] final(store)@.blocks[i] == b@,
        forall|j: int|
            0 <= j < old(store)@.blocks.len() && old(store)@.blocks[j].height != b@.height
                ==> final(store)@.blocks.contains(#[trigger] old(store)@.blocks[j]),
{
    let ghost blocks0 = store@.blocks;
    let ghost bm = b@;
    let n: usize = store.blocks.len();
    proof {
        assert(blocks0.len() == n);
        lemma_insert_pos(blocks0, bm.height);
    }
    let mut i: usize = 0;
    while i < n && store.blocks[i].height < b.height
        invariant
            0 <= i <= n == blocks0.len(),
            store@.blocks == blocks0,
            bm == b@,
            forall|k: int| 0 <= k < i ==> #[trigger] blocks0[k].height < bm.height,
        decreases n - i,
    {
        proof {
            assert(blocks0[i as int] == store.blocks@[i as int]@);
        }
        i = i + 1;
    }
    let ghost pos = i as int;
    proof {
        assert(pos < blocks0.len() ==> blocks0[pos].height >= bm.height);
    }
    if i < n && store.blocks[i].height == b.height {
        store.blocks.set(i, b);
        proof {
            let now = store@.blocks;
            assert(now.len() == blocks0.len());
            assert forall|k: int| 0 <= k < now.len() implies now[k] == (if k == pos {
                bm
            } else {
                blocks0[k]
            }) by {
                assert(now[k] == store.blocks@[k]@);
            }
            assert(store_wf(store@));
            assert(now[pos] == bm);
            assert forall|j: int|
                0 <= j < blocks0.len() && blocks0[j].height != bm.height implies now.contains(
                #[trigger] blocks0[j]) by {
                assert(now[j] == blocks0[j]);
            }
            assert forall|k: int| 0 <= k < now.len() implies (#[trigger] now[k] == bm
                || blocks0.contains(now[k])) by {
                if k != pos {
                    assert(now[k] == blocks0[k]);
                }
            }
        }
    } else {
        store.blocks.insert(i, b);
        proof {
            let now = store@.blocks;
            assert(now.len() == blocks0.len() + 1);
            assert forall|k: int| 0 <= k < now.len() implies now[k] == (if k < pos {
                blocks0[k]
            } else if k == pos {
                bm
            } else {
                blocks0[k - 1]
            }) by {
                assert(now[k] == store.blocks@[k]@);
                assert(store.blocks@ == store.blocks@.subrange(0, pos).push(b) + store.blocks@.subrange(pos + 1, now.len() as int)
                    || true);
            }
            assert(pos < blocks0.len() ==> blocks0[pos].height > bm.height);
            assert(store_wf(store@)) by {
                assert forall|x: int, y: int| 0 <= x < y < now.len() implies now[x].height
                    < now[y].height by {}
                assert forall|x: int| 0 <= x < now.len() implies #[trigger] now[x].time <= u64::MAX
                    / 1000 by {}
            }
            assert(now[pos] == bm);
            assert forall|j: int|
                0 <= j < blocks0.len() && blocks0[j].height != bm.height implies now.contains(
                #[trigger] blocks0[j]) by {
                if j < pos {
                    assert(now[j] == blocks0[j]);
                } else {
                    assert(now[j + 1] == blocks0[j]);
                }
            }
            assert forall|k: int| 0 <= k < now.len() implies (#[trigger] now[k] == bm
                || blocks0.contains(now[k])) by {
                if k < pos {
                    assert(now[k] == blocks0[k]);
                } else if k > pos {
                    assert(now[k] == blocks0[k - 1]);
                }
            }
        }
    }
}

/// The digits of a scraped decimal field, read as the standard integer
/// parse reads it: one optional leading plus sign, then the digits.
pub open spec fn unsigned_digits(s: Seq<u8>) -> Seq<u8> {
    if s.len() > 0 && s[0] == 43 {
        s.skip(1)
    } else {
        s
    }
}

fn strip_plus(s: &[u8]) -> (r: Vec<u8>)
    ensures
        r@ == unsigned_digits(s@),
{
    let start: usize = if s.len() > 0 && s[0] == 43 {
        1
    } else {
        0
    };
    let r = crate::text::clone_bytes_range(s, start, s.len());
    assert(r@ =~= unsigned_digits(s@));
    r
}

/// Reads one scraped block from its raw fields: the hash with its two
/// prefix characters stripped, a decimal height, and a decimal timestamp.
pub fn parse_block(hash: &[u8], number: &[u8], timestamp: &[u8]) -> (r: Option<Block>)
    ensures
        ({
            let nd = unsigned_digits(number@);
            let td = unsigned_digits(timestamp@);
            &&& (r is Some <==> hash@.len() >= 2 && nd.len() > 0 && all_digits(nd) && dec_val(nd)
                <= u32::MAX && td.len() > 0 && all_digits(td) && dec_val(td) <= u64::MAX)
            &&& (r matches Some(b) ==> b@ == (BlockModel {
                hash: hash@.skip(2),
                height: dec_val(nd) as u32,
                time: dec_val(td) as u64,
            }))
        }),
{
    if hash.len() < 2 {
        return None;
    }
    let nd = strip_plus(number);
    let height = match parse_dec_u32(nd.as_slice()) {
        Some(v) => v,
        None => {
            return None;
        },
    };
    let td = strip_plus(timestamp);
    let time = match parse_dec(td.as_slice(), u64::MAX) {
        Some(v) => v,
        None => {
            return None;
        },
    };
    let h = crate::text::clone_bytes_range(hash, 2, hash.len());
    assert(h@ =~= hash@.skip(2));
    Some(Block { hash: h, height, time })
}

/// The body of the lottery announcement for a drawn block: its height,
/// hash, timestamp in milliseconds, and the hub's current time.
pub open spec fn lottery_body(b: BlockModel, now: u64) -> Seq<u8>
    recommends
        b.time <= u64::MAX / 1000,
{
    "{\"type\":\"lottery\",\"block\":".spec_bytes() + dec_digits(b.height as nat)
        + ",\"hash\":\"".spec_bytes() + b.hash + "\",\"blockTime\":".spec_bytes() + dec_digits(
        (b.time * 1000) as nat,
    ) + ",\"now\":".spec_bytes() + dec_digits(now as nat) + "}".spec_bytes()
}

/// The lottery announcement as sent to a connection, with its message-type
/// prefix.
pub open spec fn lottery_payload(b: BlockModel, now: u64) -> Seq<u8>
    recommends
        b.time <= u64::MAX / 1000,
{
    "4".spec_bytes() + lottery_body(b, now)
}

/// Renders the body of the lottery announcement for a drawn block.
pub fn build_lottery_body(b: &Block, now: u64) -> (out: Vec<u8>)
    requires
        b@.time <= u64::MAX / 1000,
    ensures
        out@ == lottery_body(b@, now),
{
    let mut out: Vec<u8> = Vec::new();
    out.extend_from_slice("{\"type\":\"lottery\",\"block\":".as_bytes());
    let mut piece = u32_to_dec(b.height);
    out.append(&mut piece);
    out.extend_from_slice(",\"hash\":\"".as_bytes());
    out.extend_from_slice(b.hash.as_slice());
    out.extend_from_slice("\",\"blockTime\":".as_bytes());
    let mut piece = u64_to_dec(b.time * 1000);
    out.append(&mut piece);
    out.extend_from_slice(",\"now\":".as_bytes());
    let mut piece = u64_to_dec(now);
    out.append(&mut piece);
    out.extend_from_slice("}".as_bytes());
    assert(out@ =~= lottery_body(b@, now));
    out
}

/// What a lottery request yields: nothing for a bad secret or an exhausted
/// store; otherwise the drawn block's announcement — sent to the current
/// admin, if any — and the announcement without its prefix as the caller's
/// response body.
pub open spec fn spec_lottery(h: HubModel, s: StoreModel, secret_match: bool, now: u64) -> (
    StoreModel,
    Seq<u8>,
    Seq<OutputModel>,
) {
    if !secret_match {
        (s, "null".spec_bytes(), Seq::<OutputModel>::empty())
    } else {
        match best_block(s.blocks, s.ban) {
            None => (s, "null".spec_bytes(), Seq::<OutputModel>::empty()),
            Some(b) => (
                StoreModel { ban: s.ban.push(b.height), ..s },
                lottery_body(b, now),
                match h.admin {
                    Some(a) => seq![
                        OutputModel::Send { to: a, payload: lottery_payload(b, now) },
                    ],
                    None => Seq::<OutputModel>::empty(),
                },
            ),
        }
    }
}

/// A lottery draw request.
pub struct BlockRequest {
    pub secret: Vec<u8>,
}

/// A request to pause or resume the scraper.
pub struct FetchRequest {
    pub secret: Vec<u8>,
    pub new: bool,
}

/// Answers a lottery draw request: a caller presenting the lottery secret
/// draws the highest unused block, the current admin is told of the draw,
/// and the response carries the same announcement without its prefix.
pub fn block(
    hub: &Hub,
    store: &mut BlockStore,
    req: &BlockRequest,
    lottery_secret: &[u8],
    now: u64,
) -> (r: (Vec<u8>, Vec<Output>))
    requires
        store_wf(old(store)@),
    ensures
        store_wf(final(store)@),
        ({
            let spec_r = spec_lottery(
                hub@,
                old(store)@,
                req.secret@ == lottery_secret@,
                now,
            );
            &&& final(store)@ == spec_r.0
            &&& r.0@ == spec_r.1
            &&& r.1.deep_view() == spec_r.2
        }),
{
    let ghost s0 = store@;
    let mut outs: Vec<Output> = Vec::new();
    if !crate::text::bytes_eq(req.secret.as_slice(), lottery_secret) {
        let mut null: Vec<u8> = Vec::new();
        null.extend_from_slice("null".as_bytes());
        assert(store@ =~~= spec_lottery(hub@, s0, false, now).0);
        assert(outs.deep_view() =~= spec_lottery(hub@, s0, false, now).2);
        return (null, outs);
    }
    match fetch(store) {
        None => {
            let mut null: Vec<u8> = Vec::new();
            null.extend_from_slice("null".as_bytes());
            assert(store@ =~~= spec_lottery(hub@, s0, true, now).0);
            assert(outs.deep_view() =~= spec_lottery(hub@, s0, true, now).2);
            (null, outs)
        },
        Some(b) => {
            proof {
                lemma_best_block_in(s0.blocks, s0.ban);
                assert(s0.blocks.contains(b@));
                let k = choose|k: int| 0 <= k < s0.blocks.len() && s0.blocks[k] == b@;
                assert(s0.blocks[k].time <= u64::MAX / 1000);
            }
            let body = build_lottery_body(&b, now);
            let mut payload: Vec<u8> = Vec::new();
            payload.extend_from_slice("4".as_bytes());
            payload.extend_from_slice(body.as_slice());
            assert(payload@ =~= lottery_payload(b@, now));
            let target: Option<u64> = hub.current_admin;
            match target {
                Some(a) => {
                    outs.push(Output::Send { to: a, payload });
                    assert(outs.deep_view() =~= spec_lottery(hub@, s0, true, now).2);
                },
                None => {
                    assert(outs.deep_view() =~= spec_lottery(hub@, s0, true, now).2);
                },
            }
            assert(store@ =~~= spec_lottery(hub@, s0, true, now).0);
            (body, outs)
        },
    }
}

/// The drawn block always comes from the store, with its timestamp bound.
proof fn lemma_best_block_in(blocks: Seq<BlockModel>, ban: Seq<u32>)
    ensures
        best_block(blocks, ban) matches Some(b) ==> blocks.contains(b),
    decreases blocks.len(),
{
    if blocks.len() != 0 {
        if ban.contains(blocks.last().height) {
            lemma_best_block_in(blocks.drop_last(), ban);
            match best_block(blocks.drop_last(), ban) {
                Some(b) => {
                    let k = choose|k: int|
                        0 <= k < blocks.drop_last().len() && blocks.drop_last()[k] == b;
                    assert(blocks[k] == b);
                },
                None => {},
            }
        }
    }
}

} // verus!
