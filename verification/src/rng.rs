//! Seeded pseudo-random values and file contents.

use vstd::prelude::*;

use crate::observe;

verus! {

/// The factor that spreads a seed over the bits of a state.
pub const SEED_FACTOR: u64 = 0x9E37_79B9_7F4A_7C15;

/// The factor that makes the value of a [`Rng`] from its state.
pub const VALUE_FACTOR: u64 = 0x2545_F491_4F6C_DD1D;

/// The first state for `seed`. It is odd, so it is never 0.
pub open spec fn seeded(seed: u64) -> u64 {
    seed.wrapping_mul(SEED_FACTOR) | 1
}

/// The state of a content after the state `s`.
pub open spec fn content_step(s: u64) -> u64 {
    let a = s ^ (s << 13);
    let b = a ^ (a >> 7);
    b ^ (b << 17)
}

/// The state of the content for `seed` at the position `i`.
pub open spec fn content_state(seed: u64, i: nat) -> u64
    decreases i,
{
    if i == 0 {
        seeded(seed)
    } else {
        content_step(content_state(seed, (i - 1) as nat))
    }
}

/// The byte of a content for the state `s`: its highest byte.
pub open spec fn top_byte(s: u64) -> u8 {
    (s >> 56) as u8
}

/// The content of `len` bytes for `seed`.
pub open spec fn content_of(seed: u64, len: nat) -> Seq<u8> {
    Seq::new(len, |i: int| top_byte(content_state(seed, i as nat)))
}

/// Gives `len` bytes of pseudo-random data.
///
/// The same `seed` gives the same data. Different seeds give different data, as
/// [`law_contents_differ`] says, so a repository does not deduplicate it.
pub fn content(seed: u64, len: usize) -> (r: Vec<u8>)
    ensures
        r@ == content_of(seed, len as nat),
{
    let mut out: Vec<u8> = Vec::new();
    let mut state: u64 = seed.wrapping_mul(SEED_FACTOR) | 1;
    for i in 0..len
        invariant
            out.len() == i,
            state == content_state(seed, i as nat),
            forall|j: int| 0 <= j < i ==> out[j] == top_byte(content_state(seed, j as nat)),
    {
        out.push((state >> 56) as u8);
        let a: u64 = state ^ (state << 13);
        let b: u64 = a ^ (a >> 7);
        state = b ^ (b << 17);
    }
    out
}

/// A shorter content for a seed is the start of a longer one.
pub proof fn law_content_prefix(seed: u64, short: nat, long: nat)
    requires
        short <= long,
    ensures
        content_of(seed, long).take(short as int) == content_of(seed, short),
{
    assert(content_of(seed, long).take(short as int) =~= content_of(seed, short));
}

/// The state after the state `s` of a [`Rng`].
pub open spec fn rng_step(s: u64) -> u64 {
    let a = s ^ (s >> 12);
    let b = a ^ (a << 25);
    b ^ (b >> 27)
}

/// The value that a [`Rng`] with the state `s` gives.
pub open spec fn rng_value(s: u64) -> u64 {
    rng_step(s).wrapping_mul(VALUE_FACTOR)
}

/// The value below `n` that a [`Rng`] with the state `s` gives.
pub open spec fn rng_below(s: u64, n: nat) -> nat {
    (rng_value(s) >> 32) as nat % n
}

/// A time after the epoch.
#[derive(Debug, Clone, Copy, PartialEq, Eq, Structural)]
pub struct Time {
    /// The full seconds.
    pub secs: u64,
    /// The nanoseconds after the full seconds.
    pub nanos: u32,
}

/// The time that a [`Rng`] with the state `s` gives.
pub open spec fn rng_time(s: u64) -> Time {
    Time {
        nanos: (rng_value(s) % 1_000_000_000) as u32,
        secs: (1_600_000_000 + rng_value(rng_step(s)) % 100_000_000) as u64,
    }
}

/// A seeded pseudo-random generator (xorshift64*).
///
/// The same seed gives the same values.
#[derive(Debug)]
pub struct Rng {
    /// The state.
    pub state: u64,
}

impl Rng {
    /// Creates a generator from `seed`.
    pub fn new(seed: u64) -> (r: Self)
        ensures
            r.state == seeded(seed),
    {
        Rng { state: seed.wrapping_mul(SEED_FACTOR) | 1 }
    }

    /// Gives the next value.
    pub fn next_u64(&mut self) -> (r: u64)
        ensures
            final(self).state == rng_step(old(self).state),
            r == rng_value(old(self).state),
    {
        let a: u64 = self.state ^ (self.state >> 12);
        let b: u64 = a ^ (a << 25);
        let state: u64 = b ^ (b >> 27);
        self.state = state;
        state.wrapping_mul(VALUE_FACTOR)
    }

    /// Gives a value from 0 to `n - 1`.
    pub fn below(&mut self, n: usize) -> (r: usize)
        requires
            n > 0,
        ensures
            final(self).state == rng_step(old(self).state),
            r == rng_below(old(self).state, n as nat),
            r < n,
    {
        let value: u64 = self.next_u64();
        assert(value >> 32 <= 0xffff_ffff) by (bit_vector);
        let upper: usize = (value >> 32) as usize;
        upper % n
    }

    /// Gives a value of `values`.
    pub fn pick<T: Copy>(&mut self, values: &[T]) -> (r: T)
        requires
            values@.len() > 0,
        ensures
            final(self).state == rng_step(old(self).state),
            r == values@[rng_below(old(self).state, values@.len()) as int],
            values@.contains(r),
    {
        let index: usize = self.below(values.len());
        values[index]
    }

    /// Gives `true` in `numerator` of `denominator` calls on average.
    pub fn chance(&mut self, numerator: usize, denominator: usize) -> (r: bool)
        requires
            denominator > 0,
        ensures
            final(self).state == rng_step(old(self).state),
            r == (rng_below(old(self).state, denominator as nat) < numerator),
    {
        self.below(denominator) < numerator
    }

    /// Gives a random time between the years 2020 and 2023.
    pub fn time(&mut self) -> (r: Time)
        ensures
            final(self).state == rng_step(rng_step(old(self).state)),
            r == rng_time(old(self).state),
            1_600_000_000 <= r.secs < 1_700_000_000,
            r.nanos < 1_000_000_000,
    {
        let nanos: u32 = (self.next_u64() % 1_000_000_000) as u32;
        let secs: u64 = 1_600_000_000 + self.next_u64() % 100_000_000;
        Time { secs, nanos }
    }
}

proof fn lemma_content_state(seed: u64, i: nat)
    ensures
        content_state(seed, i) == observe::after(seeded(seed), i),
    decreases i,
{
    if i > 0 {
        lemma_content_state(seed, (i - 1) as nat);
    }
}

/// Different seeds give different data.
///
/// The first state of a content is odd, so two seeds can have the same first state. Contents of
/// less than nine bytes are too short to tell all states apart.
pub proof fn law_contents_differ(a: u64, b: u64, len: nat)
    requires
        seeded(a) != seeded(b),
        len >= 9,
    ensures
        content_of(a, len) != content_of(b, len),
{
    if content_of(a, len) == content_of(b, len) {
        assert forall|i: nat| i < 9 implies top_byte(#[trigger] observe::after(seeded(a), i))
            == top_byte(observe::after(seeded(b), i)) by {
            lemma_content_state(a, i);
            lemma_content_state(b, i);
            assert(content_of(a, len)[i as int] == content_of(b, len)[i as int]);
        }
        observe::lemma_bytes_determine_state(seeded(a), seeded(b));
    }
}

/// The seeds below this number have different first states.
pub const DISTINCT_SEEDS: u64 = 0x0E21_7C1E_66C8_8CC3;

proof fn lemma_product(a: u64) -> (p: int)
    ensures
        a * SEED_FACTOR == a.wrapping_mul(SEED_FACTOR) + p * 0x1_0000_0000_0000_0000,
{
    let product = a as int * SEED_FACTOR as int;
    let p = product / 0x1_0000_0000_0000_0000;
    assert(0 <= product) by (nonlinear_arith)
        requires
            product == a as int * SEED_FACTOR as int,
    ;
    p
}

/// Small seeds that differ have different first states.
pub proof fn law_small_seeds_differ(a: u64, b: u64)
    requires
        a != b,
        a < DISTINCT_SEEDS,
        b < DISTINCT_SEEDS,
    ensures
        seeded(a) != seeded(b),
{
    if seeded(a) == seeded(b) {
        let x = a.wrapping_mul(SEED_FACTOR);
        let y = b.wrapping_mul(SEED_FACTOR);
        assert(x == y || x == y + 1 || y == x + 1) by (bit_vector)
            requires
                x | 1 == y | 1,
        ;
        let p = lemma_product(a);
        let q = lemma_product(b);
        let difference = a - b;
        let d = x - y;
        let inverse = 0xF1DE_83E1_9937_733Dint;
        let range = 0x1_0000_0000_0000_0000int;
        assert(difference * SEED_FACTOR == d + (p - q) * range);
        let t = (p - q) * inverse - difference * 10771413168148108919;
        assert(difference == d * inverse + t * range) by (nonlinear_arith)
            requires
                difference * 0x9E37_79B9_7F4A_7C15 == d + (p - q) * range,
                inverse == 0xF1DE_83E1_9937_733Dint,
                range == 0x1_0000_0000_0000_0000int,
                t == (p - q) * inverse - difference * 10771413168148108919,
        ;
        assert(false);
    }
}

/// A draw below `n` is the rest of the upper half of the next value after a division by `n`. A pick is
/// the value at this position, and a chance is a draw below the number.
pub proof fn law_draws_are_rests<T: Copy>(
    a: &mut Rng,
    value: u64,
    b: &mut Rng,
    n: usize,
    drawn: usize,
    c: &mut Rng,
    values: &[T],
    picked: T,
    d: &mut Rng,
    numerator: usize,
    hit: bool,
)
    requires
        *old(b) == *old(a),
        *old(c) == *old(a),
        *old(d) == *old(a),
        n > 0,
        values@.len() == n,
        call_ensures(Rng::next_u64, (a,), value),
        call_ensures(Rng::below, (b, n), drawn),
        call_ensures(Rng::pick::<T>, (c, values), picked),
        call_ensures(Rng::chance, (d, numerator, n), hit),
    ensures
        drawn < n,
        exists|q: int| (value >> 32) as int == #[trigger] (q * n) + drawn,
        picked == values@[drawn as int],
        hit <==> drawn < numerator,
        *final(b) == *final(a),
        *final(c) == *final(a),
        *final(d) == *final(a),
{
    let upper = (value >> 32) as int;
    vstd::arithmetic::div_mod::lemma_fundamental_div_mod(upper, n as int);
    let q = upper / (n as int);
    assert(upper == (n as int) * q + upper % (n as int));
    vstd::arithmetic::mul::lemma_mul_is_commutative(n as int, q);
    assert(upper == (q * n) + drawn);
}

/// A time takes its nanoseconds from the next value, and its seconds from the value after it. The
/// seconds are 100,000,000 seconds from the second 1,600,000,000 on.
pub proof fn law_time_is_of_two_values(
    a: &mut Rng,
    first: u64,
    b: &mut Rng,
    second: u64,
    c: &mut Rng,
    time: Time,
)
    requires
        *old(b) == *final(a),
        *old(c) == *old(a),
        call_ensures(Rng::next_u64, (a,), first),
        call_ensures(Rng::next_u64, (b,), second),
        call_ensures(Rng::time, (c,), time),
    ensures
        time.nanos < 1_000_000_000,
        time.nanos as int == first as int % 1_000_000_000,
        1_600_000_000 <= time.secs < 1_700_000_000,
        time.secs - 1_600_000_000 == second as int % 100_000_000,
        *final(c) == *final(b),
{
}

/// The first state of a generator is not 0, and the state after a state that is not 0 is not 0. So the
/// values never stop. The states of a content are never 0 either.
pub proof fn law_states_are_never_zero(seed: u64, a: Rng, b: &mut Rng, value: u64, s: u64)
    requires
        call_ensures(Rng::new, (seed,), a),
        call_ensures(Rng::next_u64, (b,), value),
        s != 0,
    ensures
        a.state != 0,
        a.state & 1 == 1,
        old(b).state != 0 ==> final(b).state != 0,
        content_step(s) != 0,
{
    let x = seed.wrapping_mul(SEED_FACTOR);
    assert(x | 1 != 0 && (x | 1) & 1 == 1) by (bit_vector);
    lemma_shifts_keep_bits(old(b).state);
    let t = old(b).state;
    if t != 0 {
        lemma_shifts_keep_bits(t ^ (t >> 12));
        lemma_shifts_keep_bits((t ^ (t >> 12)) ^ ((t ^ (t >> 12)) << 25));
    }
    lemma_shifts_keep_bits(s);
    lemma_shifts_keep_bits(s ^ (s << 13));
    lemma_shifts_keep_bits((s ^ (s << 13)) ^ ((s ^ (s << 13)) >> 7));
}

proof fn lemma_shifts_keep_bits(s: u64)
    ensures
        s != 0 ==> s ^ (s >> 12) != 0 && s ^ (s << 25) != 0 && s ^ (s >> 27) != 0 && s ^ (s << 13)
            != 0 && s ^ (s >> 7) != 0 && s ^ (s << 17) != 0,
{
    assert(s != 0 ==> s ^ (s >> 12) != 0 && s ^ (s << 25) != 0 && s ^ (s >> 27) != 0) by (bit_vector);
    assert(s != 0 ==> s ^ (s << 13) != 0 && s ^ (s >> 7) != 0 && s ^ (s << 17) != 0) by (bit_vector);
}

/// The content for a seed has the asked length, and its bytes depend only on the seed and on their
/// positions: a longer content starts with a shorter one.
pub proof fn law_content_has_the_length(
    seed: u64,
    short: usize,
    a: Vec<u8>,
    long: usize,
    b: Vec<u8>,
    i: int,
)
    requires
        call_ensures(content, (seed, short), a),
        call_ensures(content, (seed, long), b),
        0 <= i < short,
        i < long,
    ensures
        a.len() == short,
        b.len() == long,
        a@[i] == b@[i],
{
}

proof fn lemma_states_after(seed: u64, k: nat, i: nat)
    ensures
        content_state(seed, k + i) == observe::after(content_state(seed, k), i),
    decreases i,
{
    if i > 0 {
        lemma_states_after(seed, k, (i - 1) as nat);
    }
}

proof fn lemma_states_stay_different(a: u64, b: u64, k: nat)
    requires
        seeded(a) != seeded(b),
    ensures
        content_state(a, k) != content_state(b, k),
    decreases k,
{
    if k > 0 {
        lemma_states_stay_different(a, b, (k - 1) as nat);
        let x = content_state(a, (k - 1) as nat);
        let y = content_state(b, (k - 1) as nat);
        observe::lemma_step_is_linear(x, y);
        assert(x != y ==> x ^ y != 0) by (bit_vector);
        let d = x ^ y;
        lemma_shifts_keep_bits(d);
        lemma_shifts_keep_bits(d ^ (d << 13));
        lemma_shifts_keep_bits((d ^ (d << 13)) ^ ((d ^ (d << 13)) >> 7));
        let (u, v) = (content_step(x), content_step(y));
        assert(u == v ==> u ^ v == 0) by (bit_vector);
    }
}

/// Contents of different seeds differ everywhere: in each run of nine bytes at the same position, one
/// of the bytes differs. So no part of a file is a part of another file at the same position.
pub proof fn law_contents_differ_everywhere(
    a: u64,
    x: Vec<u8>,
    b: u64,
    y: Vec<u8>,
    len: usize,
    at: int,
)
    requires
        call_ensures(content, (a, len), x),
        call_ensures(content, (b, len), y),
        seeded(a) != seeded(b),
        0 <= at,
        at + 9 <= len,
    ensures
        x@.subrange(at, at + 9) != y@.subrange(at, at + 9),
{
    let k = at as nat;
    lemma_states_stay_different(a, b, k);
    let (s, t) = (content_state(a, k), content_state(b, k));
    if x@.subrange(at, at + 9) == y@.subrange(at, at + 9) {
        assert forall|i: nat| i < 9 implies top_byte(#[trigger] observe::after(s, i)) == top_byte(
            observe::after(t, i),
        ) by {
            lemma_states_after(a, k, i);
            lemma_states_after(b, k, i);
            assert(x@.subrange(at, at + 9)[i as int] == x@[at + i]);
            assert(y@.subrange(at, at + 9)[i as int] == y@[at + i]);
            assert(x@[at + i] == top_byte(content_state(a, k + i)));
            assert(y@[at + i] == top_byte(content_state(b, k + i)));
        }
        observe::lemma_bytes_determine_state(s, t);
    }
}

} // verus!
