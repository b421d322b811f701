//! SFMT-19937 as used by the game, with a mathematical model of its output
//! stream.

use vstd::prelude::*;
use vstd::wrapping::u32_specs;

verus! {

/// Number of 128-bit words in the SFMT state.
pub const N: usize = 156;
/// Number of 32-bit words in the SFMT state.
pub const N32: usize = 624;

/// One step of the seeding recurrence.
pub closed spec fn init_next(prev: u32, i: u32) -> u32 {
    u32_specs::wrapping_add(u32_specs::wrapping_mul(1812433253u32, prev ^ (prev >> 30u32)), i)
}

/// Word `i` of the freshly seeded (not yet certified) state.
pub closed spec fn init_word(seed: u32, i: nat) -> u32
    decreases i,
{
    if i == 0 {
        seed
    } else {
        init_next(init_word(seed, (i - 1) as nat), i as u32)
    }
}

pub closed spec fn init_state(seed: u32) -> Seq<u32> {
    Seq::new(N32 as nat, |i: int| init_word(seed, i as nat))
}

/// Parity of the certification inner product (only words 0 and 3 have
/// non-zero masks).
pub closed spec fn certify_fold(x: u32) -> u32 {
    let x1 = x ^ (x >> 16u32);
    let x2 = x1 ^ (x1 >> 8u32);
    let x3 = x2 ^ (x2 >> 4u32);
    let x4 = x3 ^ (x3 >> 2u32);
    x4 ^ (x4 >> 1u32)
}

pub closed spec fn certify_state(s: Seq<u32>) -> Seq<u32> {
    let x = (s[0] & 1u32) ^ (s[3] & 0x13c9e684u32);
    if certify_fold(x) & 1u32 == 0 {
        s.update(0, s[0] ^ 1u32)
    } else {
        s
    }
}

/// Index of the `b` (recursion) block used when refreshing block `k`.
pub closed spec fn b_block(k: int) -> int {
    if k + 122 < 156 { k + 122 } else { k + 122 - 156 }
}

/// Index of the `c` block (two blocks back, cyclically).
pub closed spec fn c_block(k: int) -> int {
    if k >= 2 { k - 2 } else { k + 154 }
}

/// Index of the `d` block (previous block, cyclically).
pub closed spec fn d_block(k: int) -> int {
    if k >= 1 { k - 1 } else { 155 }
}

pub closed spec fn mix3(a3: u32, a2: u32, c3: u32, b3: u32, d3: u32) -> u32 {
    a3 ^ ((a3 << 8u32) ^ (a2 >> 24u32) ^ (c3 >> 8u32) ^ ((b3 >> 11u32) & 0xbfff_fff6u32) ^ (d3 << 18u32))
}

pub closed spec fn mix2(a2: u32, a1: u32, c3: u32, c2: u32, b2: u32, d2: u32) -> u32 {
    a2 ^ ((a2 << 8u32) ^ (a1 >> 24u32) ^ (c3 << 24u32) ^ (c2 >> 8u32) ^ ((b2 >> 11u32) & 0xbffa_ffffu32)
        ^ (d2 << 18u32))
}

pub closed spec fn mix1(a1: u32, a0: u32, c2: u32, c1: u32, b1: u32, d1: u32) -> u32 {
    a1 ^ ((a1 << 8u32) ^ (a0 >> 24u32) ^ (c2 << 24u32) ^ (c1 >> 8u32) ^ ((b1 >> 11u32) & 0xddfe_cb7fu32)
        ^ (d1 << 18u32))
}

pub closed spec fn mix0(a0: u32, c1: u32, c0: u32, b0: u32, d0: u32) -> u32 {
    a0 ^ ((a0 << 8u32) ^ (c1 << 24u32) ^ (c0 >> 8u32) ^ ((b0 >> 11u32) & 0xdfff_ffefu32) ^ (d0 << 18u32))
}

/// The state after regenerating block `k` from the current state `s`.
pub closed spec fn refresh_block(s: Seq<u32>, k: int) -> Seq<u32> {
    let a = 4 * k;
    let b = 4 * b_block(k);
    let c = 4 * c_block(k);
    let d = 4 * d_block(k);
    let w3 = mix3(s[a + 3], s[a + 2], s[c + 3], s[b + 3], s[d + 3]);
    let w2 = mix2(s[a + 2], s[a + 1], s[c + 3], s[c + 2], s[b + 2], s[d + 2]);
    let w1 = mix1(s[a + 1], s[a], s[c + 2], s[c + 1], s[b + 1], s[d + 1]);
    let w0 = mix0(s[a], s[c + 1], s[c], s[b], s[d]);
    s.update(a + 3, w3).update(a + 2, w2).update(a + 1, w1).update(a, w0)
}

/// The state after regenerating blocks `0..k` in order.
pub closed spec fn refresh_upto(s: Seq<u32>, k: nat) -> Seq<u32>
    decreases k,
{
    if k == 0 {
        s
    } else {
        refresh_block(refresh_upto(s, (k - 1) as nat), k - 1)
    }
}

/// One full regeneration of the state.
pub closed spec fn refresh_state(s: Seq<u32>) -> Seq<u32> {
    refresh_upto(s, N as nat)
}

/// Abstract generator state: the 624 state words and the read index.
pub struct SfmtModel {
    pub state: Seq<u32>,
    pub index: int,
}

impl SfmtModel {
    pub closed spec fn wf(self) -> bool {
        self.state.len() == N32 && 0 <= self.index <= N32
    }

    /// The state after drawing one 32-bit value.
    pub closed spec fn next32(self) -> SfmtModel {
        if self.index >= N32 {
            SfmtModel { state: refresh_state(self.state), index: 1 }
        } else {
            SfmtModel { state: self.state, index: self.index + 1 }
        }
    }

    /// The next 32-bit value.
    pub closed spec fn out32(self) -> u32 {
        if self.index >= N32 {
            refresh_state(self.state)[0]
        } else {
            self.state[self.index]
        }
    }

    /// The state after drawing one 64-bit value.
    pub closed spec fn next64(self) -> SfmtModel {
        self.next32().next32()
    }

    /// The next 64-bit value: low word first, high word second.
    pub closed spec fn out64(self) -> u64 {
        (self.out32() as u64) | ((self.next32().out32() as u64) << 32u64)
    }

    /// The state after drawing `n` 64-bit values.
    pub closed spec fn skip64(self, n: nat) -> SfmtModel
        decreases n,
    {
        if n == 0 {
            self
        } else {
            self.skip64((n - 1) as nat).next64()
        }
    }

    /// The next `n` 64-bit values.
    pub closed spec fn values64(self, n: nat) -> Seq<u64> {
        Seq::new(n, |j: int| self.skip64(j as nat).out64())
    }
}

/// The generator state right after seeding.
pub closed spec fn seeded(seed: u32) -> SfmtModel {
    SfmtModel { state: certify_state(init_state(seed)), index: N32 as int }
}

/// The `n`-th (0-based) 64-bit output of the generator seeded with `seed`.
pub closed spec fn sfmt_u64_at(seed: u32, n: nat) -> u64 {
    seeded(seed).skip64(n).out64()
}

/// `values` holds the outputs of `seed` starting at absolute position `base`.
pub open spec fn stream_from(values: Seq<u64>, seed: u32, base: int) -> bool {
    &&& base >= 0
    &&& forall|i: int| 0 <= i < values.len() ==> #[trigger] values[i] == sfmt_u64_at(seed, (base + i) as nat)
}

pub proof fn lemma_next32_wf(m: SfmtModel)
    requires
        m.wf(),
    ensures
        m.next32().wf(),
{
    lemma_refresh_len(m.state);
}

pub proof fn lemma_refresh_upto_len(s: Seq<u32>, k: nat)
    requires
        s.len() == N32,
        k <= N,
    ensures
        refresh_upto(s, k).len() == N32,
    decreases k,
{
    if k > 0 {
        lemma_refresh_upto_len(s, (k - 1) as nat);
    }
}

pub proof fn lemma_refresh_len(s: Seq<u32>)
    requires
        s.len() == N32,
    ensures
        refresh_state(s).len() == N32,
{
    lemma_refresh_upto_len(s, N as nat);
}

pub proof fn lemma_skip64_wf(m: SfmtModel, n: nat)
    requires
        m.wf(),
    ensures
        m.skip64(n).wf(),
    decreases n,
{
    if n > 0 {
        lemma_skip64_wf(m, (n - 1) as nat);
        lemma_next32_wf(m.skip64((n - 1) as nat));
        lemma_next32_wf(m.skip64((n - 1) as nat).next32());
    }
}

pub proof fn lemma_skip64_succ(m: SfmtModel, n: nat)
    ensures
        m.skip64(0) == m,
        m.skip64(n + 1) == m.skip64(n).next64(),
{
    assert((n + 1 - 1) as nat == n);
}

pub proof fn lemma_values64_index(m: SfmtModel, n: nat, j: int)
    requires
        0 <= j < n,
    ensures
        m.values64(n).len() == n,
        m.values64(n)[j] == m.skip64(j as nat).out64(),
{
}

/// Skipping is additive.
pub proof fn lemma_skip64_add(m: SfmtModel, a: nat, b: nat)
    ensures
        m.skip64(a).skip64(b) == m.skip64(a + b),
    decreases b,
{
    if b > 0 {
        lemma_skip64_add(m, a, (b - 1) as nat);
        assert((a + b - 1) as nat == a + (b - 1) as nat);
    }
}

/// The SFMT generator: 624 state words and a read index.
pub struct Sfmt {
    state: Vec<u32>,
    index: usize,
}

impl View for Sfmt {
    type V = SfmtModel;

    closed spec fn view(&self) -> SfmtModel {
        SfmtModel { state: self.state@, index: self.index as int }
    }
}

impl Clone for Sfmt {
    fn clone(&self) -> (r: Self)
        ensures
            r@ == self@,
    {
        Sfmt { state: self.state.clone(), index: self.index }
    }
}

impl Sfmt {
    pub open spec fn wf(&self) -> bool {
        self@.wf()
    }

    /// Seeds the generator.
    pub fn new(seed: u32) -> (r: Self)
        ensures
            r@ == seeded(seed),
            r.wf(),
    {
        let mut s: Vec<u32> = Vec::with_capacity(N32);
        s.push(seed);
        let mut i: usize = 1;
        while i < N32
            invariant
                1 <= i <= N32,
                s@.len() == i,
                forall|j: int| 0 <= j < i ==> #[trigger] s@[j] == init_word(seed, j as nat),
            decreases N32 - i,
        {
            let prev = s[i - 1];
            let v = 1812433253u32.wrapping_mul(prev ^ (prev >> 30)).wrapping_add(i as u32);
            proof {
                assert(v == init_next(s@[i - 1], i as u32));
                assert(init_word(seed, i as nat) == init_next(init_word(seed, (i - 1) as nat), i as u32));
            }
            s.push(v);
            i = i + 1;
        }
        assert(s@ =~= init_state(seed));
        let mut r = Sfmt { state: s, index: N32 };
        r.certify();
        r
    }

    /// Flips the lowest bit of the state when the period certification
    /// parity is even.
    fn certify(&mut self)
        requires
            old(self).wf(),
        ensures
            final(self)@.state == certify_state(old(self)@.state),
            final(self)@.index == old(self)@.index,
            final(self).wf(),
    {
        let x = (self.state[0] & 1) ^ (self.state[3] & 0x13c9e684);
        let x = x ^ (x >> 16);
        let x = x ^ (x >> 8);
        let x = x ^ (x >> 4);
        let x = x ^ (x >> 2);
        let x = x ^ (x >> 1);
        if x & 1 == 0 {
            let w = self.state[0] ^ 1;
            self.state.set(0, w);
        }
    }

    /// Regenerates all 624 state words and rewinds the read index.
    pub fn refresh(&mut self)
        requires
            old(self).wf(),
        ensures
            final(self)@.state == refresh_state(old(self)@.state),
            final(self)@.index == 0,
            final(self).wf(),
    {
        let ghost s0 = self.state@;
        let mut a: usize = 0;
        let mut b: usize = 122 * 4;
        let mut c: usize = (N - 2) * 4;
        let mut d: usize = (N - 1) * 4;
        let mut k: usize = 0;
        while a < N32
            invariant
                k <= N,
                a == 4 * k,
                b == 4 * b_block(k as int) || k == N,
                c == 4 * c_block(k as int) || k == N,
                d == 4 * d_block(k as int) || k == N,
                k < N ==> b == 4 * b_block(k as int) && c == 4 * c_block(k as int) && d == 4 * d_block(k as int),
                self.state@ == refresh_upto(s0, k as nat),
                self.state@.len() == N32,
                s0.len() == N32,
            decreases N32 - a,
        {
            let a3 = self.state[a + 3];
            let a2 = self.state[a + 2];
            let a1 = self.state[a + 1];
            let a0 = self.state[a];
            let b3 = self.state[b + 3];
            let b2 = self.state[b + 2];
            let b1 = self.state[b + 1];
            let b0 = self.state[b];
            let c3 = self.state[c + 3];
            let c2 = self.state[c + 2];
            let c1 = self.state[c + 1];
            let c0 = self.state[c];
            let d3 = self.state[d + 3];
            let d2 = self.state[d + 2];
            let d1 = self.state[d + 1];
            let d0 = self.state[d];
            let w3 = a3 ^ ((a3 << 8) ^ (a2 >> 24) ^ (c3 >> 8) ^ ((b3 >> 11) & 0xbfff_fff6) ^ (d3 << 18));
            let w2 = a2 ^ ((a2 << 8) ^ (a1 >> 24) ^ (c3 << 24) ^ (c2 >> 8) ^ ((b2 >> 11) & 0xbffa_ffff)
                ^ (d2 << 18));
            let w1 = a1 ^ ((a1 << 8) ^ (a0 >> 24) ^ (c2 << 24) ^ (c1 >> 8) ^ ((b1 >> 11) & 0xddfe_cb7f)
                ^ (d1 << 18));
            let w0 = a0 ^ ((a0 << 8) ^ (c1 << 24) ^ (c0 >> 8) ^ ((b0 >> 11) & 0xdfff_ffef) ^ (d0 << 18));
            let ghost cur = self.state@;
            self.state.set(a + 3, w3);
            self.state.set(a + 2, w2);
            self.state.set(a + 1, w1);
            self.state.set(a, w0);
            proof {
                assert(self.state@ == refresh_block(cur, k as int));
            }
            c = d;
            d = a;
            a = a + 4;
            b = b + 4;
            if b >= N32 {
                b = 0;
            }
            k = k + 1;
        }
        self.index = 0;
    }

    /// Draws the next 32-bit value.
    pub fn next_u32(&mut self) -> (v: u32)
        requires
            old(self).wf(),
        ensures
            v == old(self)@.out32(),
            final(self)@ == old(self)@.next32(),
            final(self).wf(),
    {
        if self.index >= N32 {
            self.refresh();
        }
        let v = self.state[self.index];
        self.index = self.index + 1;
        v
    }

    /// Draws the next 64-bit value (low word first).
    pub fn next_u64(&mut self) -> (v: u64)
        requires
            old(self).wf(),
        ensures
            v == old(self)@.out64(),
            final(self)@ == old(self)@.next64(),
            final(self).wf(),
    {
        let lo = self.next_u32();
        let hi = self.next_u32();
        lo as u64 | ((hi as u64) << 32)
    }
}


pub proof fn lemma_values64_shift(seed: u32, f: nat, n: nat)
    ensures
        seeded(seed).skip64(f).values64(n) =~= Seq::new(n, |j: int| sfmt_u64_at(seed, (f + j) as nat)),
{
    assert forall|j: int| 0 <= j < n implies seeded(seed).skip64(f).values64(n)[j] == sfmt_u64_at(
        seed,
        (f + j) as nat,
    ) by {
        lemma_skip64_add(seeded(seed), f, j as nat);
    }
}

/// A generator seeded with `seed` that has already produced `start` 64-bit
/// values.
pub fn sfmt_after(seed: u32, start: u64) -> (r: Sfmt)
    ensures
        r@ == seeded(seed).skip64(start as nat),
        r.wf(),
{
    let mut sfmt = Sfmt::new(seed);
    let mut i: u64 = 0;
    while i < start
        invariant
            i <= start,
            sfmt@ == seeded(seed).skip64(i as nat),
            sfmt.wf(),
        decreases start - i,
    {
        sfmt.next_u64();
        i = i + 1;
    }
    sfmt
}

/// The first `count` 64-bit outputs of `seed`.
pub fn generate_u64_values(seed: u32, count: usize) -> (r: Vec<u64>)
    ensures
        r@.len() == count,
        stream_from(r@, seed, 0),
{
    generate_u64_values_from(seed, 0, count)
}

/// `count` 64-bit outputs of `seed`, starting at absolute position `start`.
pub fn generate_u64_values_from(seed: u32, start: usize, count: usize) -> (r: Vec<u64>)
    ensures
        r@.len() == count,
        stream_from(r@, seed, start as int),
{
    let mut sfmt = sfmt_after(seed, start as u64);
    let mut r: Vec<u64> = Vec::new();
    let mut i: usize = 0;
    while i < count
        invariant
            i <= count,
            r@.len() == i,
            sfmt@ == seeded(seed).skip64((start + i) as nat),
            sfmt.wf(),
            forall|j: int| 0 <= j < i ==> #[trigger] r@[j] == sfmt_u64_at(seed, (start + j) as nat),
        decreases count - i,
    {
        let v = sfmt.next_u64();
        r.push(v);
        i = i + 1;
    }
    r
}

/// The 64-bit output at absolute position `position`, or `None` for a
/// negative position.
pub fn sfmt_value_at(seed: u32, position: i64) -> (r: Option<u64>)
    ensures
        position < 0 ==> r is None,
        position >= 0 ==> r == Some(sfmt_u64_at(seed, position as nat)),
{
    if position < 0 {
        return None;
    }
    let mut sfmt = sfmt_after(seed, position as u64);
    Some(sfmt.next_u64())
}

} // verus!
