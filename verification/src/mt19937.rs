//! A Mersenne Twister pseudo-random generator, seeded the way the classic
//! reference implementation seeds from a key array, with block-buffered
//! output and the standard tempering transform.
use vstd::prelude::*;

verus! {

/// The number of words in the generator state.
pub const N: usize = 624;

/// The tempering transform applied to each raw output word.
pub open spec fn spec_transform(x: u32) -> u32 {
    let a = x ^ (x >> 11u32);
    let b = a ^ ((a << 7u32) & 0x9d2c_5680);
    let c = b ^ ((b << 15u32) & 0xefc6_0000);
    c ^ (c >> 18u32)
}

/// Tempers one raw word of generator output.
pub fn transform(x: u32) -> (r: u32)
    ensures
        r == spec_transform(x),
{
    let a: u32 = x ^ (x >> 11u32);
    let b: u32 = a ^ ((a << 7u32) & 0x9d2c_5680);
    let c: u32 = b ^ ((b << 15u32) & 0xefc6_0000);
    c ^ (c >> 18u32)
}

/// One word of the key-expansion recurrence: the next state word from its
/// predecessor and its index.
pub open spec fn spec_expand(prev: u32, i: int) -> u32 {
    (prev ^ (prev >> 30u32)).wrapping_mul(0x6c07_8965).wrapping_add(i as u32)
}

/// A full 624-word generator state.
pub struct State {
    words: Vec<u32>,
}

impl View for State {
    type V = Seq<u32>;

    closed spec fn view(&self) -> Seq<u32> {
        self.words@
    }
}

/// A state always holds exactly 624 words.
pub open spec fn state_wf(s: Seq<u32>) -> bool {
    s.len() == N
}

impl State {
    /// Expands a seed key of one to 624 words into a full state: the key
    /// fills the first words, and each further word follows from its
    /// predecessor by the key-expansion recurrence.
    pub fn from_slice(seed: &[u32]) -> (r: State)
        requires
            1 <= seed@.len() <= N,
        ensures
            state_wf(r@),
            forall|i: int| 0 <= i < seed@.len() ==> r@[i] == seed@[i],
            forall|i: int| seed@.len() <= i < N ==> r@[i] == spec_expand(#[trigger] r@[i - 1], i),
    {
        let k: usize = seed.len();
        let mut words: Vec<u32> = Vec::new();
        let mut i: usize = 0;
        while i < k
            invariant
                0 <= i <= k == seed@.len(),
                words@.len() == i,
                forall|j: int| 0 <= j < i ==> words@[j] == seed@[j],
            decreases k - i,
        {
            words.push(seed[i]);
            i = i + 1;
        }
        while i < N
            invariant
                k <= i <= N,
                1 <= k == seed@.len(),
                words@.len() == i,
                forall|j: int| 0 <= j < k ==> words@[j] == seed@[j],
                forall|j: int| k <= j < i ==> words@[j] == spec_expand(#[trigger] words@[j - 1], j),
            decreases N - i,
        {
            let x: u32 = words[i - 1];
            let next: u32 = (x ^ (x >> 30u32)).wrapping_mul(0x6c07_8965).wrapping_add(i as u32);
            words.push(next);
            i = i + 1;
        }
        State { words }
    }

    /// An all-zero state.
    pub fn new_zeroed() -> (r: State)
        ensures
            state_wf(r@),
            forall|i: int| 0 <= i < N ==> r@[i] == 0u32,
    {
        let words: Vec<u32> = vec![0u32; N];
        State { words }
    }

    /// The state's words, for callers that feed them elsewhere.
    pub fn to_vec(&self) -> (r: Vec<u32>)
        ensures
            r@ == self@,
    {
        let mut out: Vec<u32> = Vec::new();
        let n: usize = self.words.len();
        let mut i: usize = 0;
        while i < n
            invariant
                0 <= i <= n == self@.len(),
                out@ == self@.take(i as int),
            decreases n - i,
        {
            out.push(self.words[i]);
            assert(out@ =~= self@.take(i + 1));
            i = i + 1;
        }
        assert(out@ =~= self@);
        out
    }
}

impl Default for State {
    /// The all-zero state.
    fn default() -> (r: State)
        ensures
            state_wf(r@),
            forall|i: int| 0 <= i < N ==> r@[i] == 0u32,
    {
        State::new_zeroed()
    }
}

/// One word of the twist: the next value at `i` given the working state
/// `s`, whose words before `i` are already twisted.
pub open spec fn twist_at(s: Seq<u32>, i: int) -> u32
    recommends
        state_wf(s),
        0 <= i < N,
{
    let y = (s[i] & 0x8000_0000).wrapping_add(s[(i + 1) % (N as int)] & 0x7fff_ffff);
    s[(i + 397) % (N as int)] ^ (y >> 1u32) ^ (0u32.wrapping_sub(y & 1) & 0x9908_b0df)
}

/// The working state after twisting the first `k` words in place.
pub open spec fn twist_upto(s: Seq<u32>, k: int) -> Seq<u32>
    decreases k,
{
    if k <= 0 {
        s
    } else {
        let prev = twist_upto(s, k - 1);
        prev.update(k - 1, twist_at(prev, k - 1))
    }
}

/// The state after one full in-place twist.
pub open spec fn spec_twist(s: Seq<u32>) -> Seq<u32> {
    twist_upto(s, N as int)
}

proof fn lemma_twist_upto_len(s: Seq<u32>, k: int)
    requires
        state_wf(s),
        0 <= k <= N,
    ensures
        state_wf(twist_upto(s, k)),
    decreases k,
{
    if k > 0 {
        lemma_twist_upto_len(s, k - 1);
    }
}

/// The core generator: a state advanced one full block at a time.
pub struct Mt19937Core {
    state: State,
}

impl View for Mt19937Core {
    type V = Seq<u32>;

    closed spec fn view(&self) -> Seq<u32> {
        self.state@
    }
}

impl Mt19937Core {
    /// A core seeded from a single word.
    pub fn seed_from_u32(state: u32) -> (r: Mt19937Core)
        ensures
            state_wf(r@),
            r@[0] == state,
            forall|i: int| 1 <= i < N ==> r@[i] == spec_expand(#[trigger] r@[i - 1], i),
    {
        let seed: [u32; 1] = [state];
        Mt19937Core::seed_from_u32_slice(seed.as_slice())
    }

    /// A core seeded from a key of one to 624 words.
    pub fn seed_from_u32_slice(state: &[u32]) -> (r: Mt19937Core)
        requires
            1 <= state@.len() <= N,
        ensures
            state_wf(r@),
            forall|i: int| 0 <= i < state@.len() ==> r@[i] == state@[i],
            forall|i: int| state@.len() <= i < N ==> r@[i] == spec_expand(#[trigger] r@[i - 1], i),
    {
        Mt19937Core { state: State::from_slice(state) }
    }

    /// A core that starts from the given full state.
    pub fn from_seed(seed: State) -> (r: Mt19937Core)
        ensures
            r@ == seed@,
    {
        Mt19937Core { state: seed }
    }

    /// A core seeded from the two halves of a 64-bit word.
    pub fn seed_from_u64(state: u64) -> (r: Mt19937Core)
        ensures
            state_wf(r@),
            r@[0] == (state & 0xffff_ffff) as u32,
            r@[1] == (state >> 32u64) as u32,
            forall|i: int| 2 <= i < N ==> r@[i] == spec_expand(#[trigger] r@[i - 1], i),
    {
        let seed: [u32; 2] = [(state & 0xffff_ffff) as u32, (state >> 32u64) as u32];
        Mt19937Core::seed_from_u32_slice(seed.as_slice())
    }

    /// Advances the state by one full in-place twist and copies the new
    /// block of raw output words into `results`.
    pub fn generate(&mut self, results: &mut State)
        requires
            state_wf(old(self)@),
        ensures
            state_wf(final(self)@),
            final(self)@ == spec_twist(old(self)@),
            final(results)@ == final(self)@,
    {
        let ghost s0 = self@;
        let mut i: usize = 0;
        while i < N
            invariant
                0 <= i <= N,
                state_wf(s0),
                self@ == twist_upto(s0, i as int),
                state_wf(self@),
            decreases N - i,
        {
            let ip1: usize = if i == N - 1 {
                0
            } else {
                i + 1
            };
            let ip397: usize = if i + 397 >= N {
                i + 397 - N
            } else {
                i + 397
            };
            let y: u32 = (self.state.words[i] & 0x8000_0000).wrapping_add(
                self.state.words[ip1] & 0x7fff_ffff,
            );
            let v: u32 = self.state.words[ip397] ^ (y >> 1u32) ^ (0u32.wrapping_sub(y & 1)
                & 0x9908_b0df);
            proof {
                assert(ip1 as int == (i + 1) % (N as int));
                assert(ip397 as int == (i + 397) % (N as int));
                assert(v == twist_at(twist_upto(s0, i as int), i as int));
            }
            self.state.words.set(i, v);
            proof {
                assert(self@ =~= twist_upto(s0, i + 1));
            }
            i = i + 1;
        }
        let mut out: Vec<u32> = Vec::new();
        let mut j: usize = 0;
        while j < N
            invariant
                0 <= j <= N,
                state_wf(self@),
                self@ == twist_upto(s0, N as int),
                state_wf(s0),
                out@ == self@.take(j as int),
            decreases N - j,
        {
            out.push(self.state.words[j]);
            assert(out@ =~= self@.take(j + 1));
            j = j + 1;
        }
        assert(out@ =~= self@);
        results.words = out;
    }
}

/// The buffered generator: a core, the last generated block, and the index
/// of the next word to serve from it.
pub struct Mt19937 {
    core: Mt19937Core,
    results: State,
    index: usize,
}

/// The mathematical shape of the buffered generator.
#[verifier::ext_equal]
pub struct Mt19937Model {
    pub key: Seq<u32>,
    pub results: Seq<u32>,
    pub index: int,
}

impl View for Mt19937 {
    type V = Mt19937Model;

    closed spec fn view(&self) -> Mt19937Model {
        Mt19937Model { key: self.core@, results: self.results@, index: self.index as int }
    }
}

pub open spec fn mt_wf(m: Mt19937Model) -> bool {
    &&& state_wf(m.key)
    &&& state_wf(m.results)
    &&& 0 <= m.index <= N
}

/// The generator state and output of serving one raw word: an exhausted
/// buffer is refilled by a twist before the word at the front is taken.
pub open spec fn spec_next_raw(m: Mt19937Model) -> (Mt19937Model, u32) {
    if m.index >= N {
        let key = spec_twist(m.key);
        (Mt19937Model { key: key, results: key, index: 1 }, key[0])
    } else {
        (Mt19937Model { index: m.index + 1, ..m }, m.results[m.index])
    }
}

/// The generator state and output of serving one 64-bit word from two
/// consecutive raw words, low half first; a buffer without two words left
/// is refilled first, and a lone trailing word is paired with the first
/// word of the fresh block.
pub open spec fn spec_next_raw64(m: Mt19937Model) -> (Mt19937Model, u64) {
    if m.index < N - 1 {
        let x = (m.results[m.index + 1] as u64) << 32u64 | (m.results[m.index] as u64);
        (Mt19937Model { index: m.index + 2, ..m }, x)
    } else if m.index >= N {
        let key = spec_twist(m.key);
        let x = (key[1] as u64) << 32u64 | (key[0] as u64);
        (Mt19937Model { key: key, results: key, index: 2 }, x)
    } else {
        let lo = m.results[N - 1];
        let key = spec_twist(m.key);
        let x = (key[0] as u64) << 32u64 | (lo as u64);
        (Mt19937Model { key: key, results: key, index: 1 }, x)
    }
}

impl Mt19937 {
    /// A buffered generator over the given full state; the first request
    /// generates the first block.
    pub fn from_seed(seed: State) -> (r: Mt19937)
        requires
            state_wf(seed@),
        ensures
            mt_wf(r@),
            r@.key == seed@,
            r@.index == N,
    {
        Mt19937 { core: Mt19937Core::from_seed(seed), results: State::new_zeroed(), index: N }
    }

    /// A buffered generator seeded from a single word.
    pub fn seed_from_u32(state: u32) -> (r: Mt19937)
        ensures
            mt_wf(r@),
            r@.key[0] == state,
            forall|i: int| 1 <= i < N ==> r@.key[i] == spec_expand(#[trigger] r@.key[i - 1], i),
            r@.index == N,
    {
        let seed: [u32; 1] = [state];
        Mt19937::seed_from_u32_slice(seed.as_slice())
    }

    /// A buffered generator seeded from a key of one to 624 words.
    pub fn seed_from_u32_slice(state: &[u32]) -> (r: Mt19937)
        requires
            1 <= state@.len() <= N,
        ensures
            mt_wf(r@),
            forall|i: int| 0 <= i < state@.len() ==> r@.key[i] == state@[i],
            forall|i: int|
                state@.len() <= i < N ==> r@.key[i] == spec_expand(#[trigger] r@.key[i - 1], i),
            r@.index == N,
    {
        Mt19937::from_seed(State::from_slice(state))
    }

    /// A buffered generator seeded from the two halves of a 64-bit word.
    pub fn seed_from_u64(state: u64) -> (r: Mt19937)
        ensures
            mt_wf(r@),
            r@.key[0] == (state & 0xffff_ffff) as u32,
            r@.key[1] == (state >> 32u64) as u32,
            forall|i: int| 2 <= i < N ==> r@.key[i] == spec_expand(#[trigger] r@.key[i - 1], i),
            r@.index == N,
    {
        let seed: [u32; 2] = [(state & 0xffff_ffff) as u32, (state >> 32u64) as u32];
        Mt19937::seed_from_u32_slice(seed.as_slice())
    }

    fn next_raw(&mut self) -> (r: u32)
        requires
            mt_wf(old(self)@),
        ensures
            mt_wf(final(self)@),
            final(self)@ == spec_next_raw(old(self)@).0,
            r == spec_next_raw(old(self)@).1,
    {
        if self.index >= N {
            proof {
                lemma_twist_upto_len(self@.key, N as int);
            }
            let results = &mut self.results;
            self.core.generate(results);
            self.index = 0;
        }
        let r: u32 = self.results.words[self.index];
        self.index = self.index + 1;
        r
    }

    /// The next tempered 32-bit output word.
    pub fn next_u32(&mut self) -> (r: u32)
        requires
            mt_wf(old(self)@),
        ensures
            mt_wf(final(self)@),
            final(self)@ == spec_next_raw(old(self)@).0,
            r == spec_transform(spec_next_raw(old(self)@).1),
    {
        let x = self.next_raw();
        transform(x)
    }

    /// The next 64-bit output word: two consecutive raw words, each
    /// tempered, the earlier one in the low half.
    pub fn next_u64(&mut self) -> (r: u64)
        requires
            mt_wf(old(self)@),
        ensures
            mt_wf(final(self)@),
            final(self)@ == spec_next_raw64(old(self)@).0,
            ({
                let x = spec_next_raw64(old(self)@).1;
                let lo = (x & 0xffff_ffff) as u32;
                let hi = (x >> 32u64) as u32;
                r == (spec_transform(lo) as u64) | ((spec_transform(hi) as u64) << 32u64)
            }),
    {
        let ghost m0 = self@;
        let x: u64;
        if self.index < N - 1 {
            let a: u32 = self.results.words[self.index];
            let b: u32 = self.results.words[self.index + 1];
            self.index = self.index + 2;
            x = ((b as u64) << 32u64) | (a as u64);
        } else if self.index >= N {
            proof {
                lemma_twist_upto_len(m0.key, N as int);
            }
            let results = &mut self.results;
            self.core.generate(results);
            self.index = 2;
            let a: u32 = self.results.words[0];
            let b: u32 = self.results.words[1];
            x = ((b as u64) << 32u64) | (a as u64);
        } else {
            let lo: u32 = self.results.words[N - 1];
            proof {
                lemma_twist_upto_len(m0.key, N as int);
            }
            let results = &mut self.results;
            self.core.generate(results);
            self.index = 1;
            let b: u32 = self.results.words[0];
            x = ((b as u64) << 32u64) | (lo as u64);
        }
        proof {
            assert(x == spec_next_raw64(m0).1);
            assert(self@ =~~= spec_next_raw64(m0).0);
        }
        let a: u32 = (x & 0xffff_ffff) as u32;
        let b: u32 = (x >> 32u64) as u32;
        let ta = transform(a);
        let tb = transform(b);
        (ta as u64) | ((tb as u64) << 32u64)
    }
}

} // verus!
