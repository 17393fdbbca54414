//! The PowerPico measurement stream.
//!
//! A frame is the header `AA 55`, a little-endian `u64` timestamp in
//! microseconds, a sample count `n`, and `n` samples of seven bytes each:
//! the current range (1..=3) and three little-endian `u16` ADC readings
//! (voltage, current, current reference). Frames may arrive split or with
//! garbage in between; samples out of the plausible range are dropped.
use vstd::prelude::*;

verus! {

pub const HEADER0: u8 = 0xAA;
pub const HEADER1: u8 = 0x55;
pub const META_SIZE: usize = 11;
pub const SAMPLE_SIZE: usize = 7;
/// Largest voltage reading accepted: 22 V at the input divider
/// (3 V / 4096 per step, divider 100 kΩ / 1.1 MΩ).
pub const MAX_VOLT_ADC: u16 = 2730;
pub const MAX_CURRENT_ADC: u16 = 4096;
pub const MIN_REFERENCE_ADC: u16 = 1998;
pub const MAX_REFERENCE_ADC: u16 = 2098;

/// One plausible measurement, still in ADC units.
#[derive(Debug, Clone, Copy, PartialEq, Eq, Structural)]
pub struct RawSample {
    /// Frame timestamp minus the first frame's timestamp (wrapping), in µs.
    pub elapsed_us: u64,
    /// Position of the sample in its frame; samples are 100 µs apart.
    pub index: u8,
    /// Current range: 1 (50 Ω shunt), 2 (0.5 Ω) or 3 (5 mΩ).
    pub range: u8,
    pub voltage_adc: u16,
    pub current_adc: u16,
    pub reference_adc: u16,
}

pub open spec fn header_at(s: Seq<u8>, i: int) -> bool {
    0 <= i && i + 1 < s.len() && s[i] == HEADER0 && s[i + 1] == HEADER1
}

/// The first header at or after `i`.
pub open spec fn first_header_from(s: Seq<u8>, i: nat) -> Option<nat>
    decreases s.len() - i,
{
    if i + 1 >= s.len() {
        None
    } else if header_at(s, i as int) {
        Some(i)
    } else {
        first_header_from(s, i + 1)
    }
}

pub proof fn lemma_first_header_from(s: Seq<u8>, i: nat)
    ensures
        first_header_from(s, i) matches Some(k) ==> i <= k && header_at(s, k as int)
            && forall|j: int| i <= j < k ==> !header_at(s, j),
        first_header_from(s, i) is None ==> forall|j: int| i <= j ==> !header_at(s, j),
    decreases s.len() - i,
{
    if i + 1 < s.len() && !header_at(s, i as int) {
        lemma_first_header_from(s, i + 1);
    }
}

/// Bytes kept when no header is found: a trailing `AA` may start one.
pub open spec fn keep_len(s: Seq<u8>) -> int {
    if s.len() > 0 && s.last() == HEADER0 { 1 } else { 0 }
}

pub open spec fn le_u16_at(s: Seq<u8>, i: int) -> u16 {
    (s[i] + 256 * s[i + 1]) as u16
}

pub open spec fn le_u64_at(s: Seq<u8>, i: int) -> u64 {
    (s[i] + 0x100 * s[i + 1] + 0x1_0000 * s[i + 2] + 0x100_0000 * s[i + 3] + 0x1_0000_0000 * s[i
        + 4] + 0x100_0000_0000 * s[i + 5] + 0x1_0000_0000_0000 * s[i + 6] + 0x100_0000_0000_0000
        * s[i + 7]) as u64
}

pub open spec fn wrapping_elapsed(ts: u64, base: u64) -> u64 {
    if ts >= base { (ts - base) as u64 } else { (ts - base + 0x1_0000_0000_0000_0000) as u64 }
}

pub open spec fn sample_offset(index: int) -> int {
    META_SIZE + SAMPLE_SIZE * index
}

pub open spec fn raw_sample_at(frame: Seq<u8>, index: int, elapsed: u64) -> RawSample {
    let o = sample_offset(index);
    RawSample {
        elapsed_us: elapsed,
        index: index as u8,
        range: frame[o],
        voltage_adc: le_u16_at(frame, o + 1),
        current_adc: le_u16_at(frame, o + 3),
        reference_adc: le_u16_at(frame, o + 5),
    }
}

/// The plausibility rule a measurement must pass to be kept.
pub open spec fn plausible(r: RawSample) -> bool {
    &&& 1 <= r.range <= 3
    &&& MIN_REFERENCE_ADC <= r.reference_adc <= MAX_REFERENCE_ADC
    &&& r.voltage_adc <= MAX_VOLT_ADC
    &&& r.current_adc <= MAX_CURRENT_ADC
}

/// The plausible samples among the first `n` of a frame, in order.
pub open spec fn frame_samples(frame: Seq<u8>, n: int, elapsed: u64) -> Seq<RawSample>
    decreases n,
{
    if n <= 0 {
        seq![]
    } else {
        let r = raw_sample_at(frame, n - 1, elapsed);
        frame_samples(frame, n - 1, elapsed) + if plausible(r) { seq![r] } else { seq![] }
    }
}

/// Parses as many frames as the buffered bytes `s` hold. Returns the bytes
/// left for later, the base timestamp, and the samples in order.
pub open spec fn parse_stream(s: Seq<u8>, base: Option<u64>) -> (Seq<u8>, Option<u64>, Seq<RawSample>)
    decreases s.len(),
{
    if s.len() < META_SIZE + SAMPLE_SIZE {
        (s, base, seq![])
    } else {
        match first_header_from(s, 0) {
            None => (s.skip(s.len() - keep_len(s)), base, seq![]),
            Some(i) => {
                proof {
                    lemma_first_header_from(s, 0);
                }
                let t = s.skip(i as int);
                if t.len() < META_SIZE {
                    (t, base, seq![])
                } else if t[10] == 0 {
                    parse_stream(t.skip(1), base)
                } else {
                    let frame_len = META_SIZE + SAMPLE_SIZE * t[10];
                    if t.len() < frame_len {
                        (t, base, seq![])
                    } else {
                        let ts = le_u64_at(t, 2);
                        let b = match base {
                            Some(b) => b,
                            None => ts,
                        };
                        let rest = parse_stream(t.skip(frame_len), Some(b));
                        (rest.0, rest.1, frame_samples(t, t[10] as int, wrapping_elapsed(ts, b)) + rest.2)
                    }
                }
            },
        }
    }
}


proof fn lemma_header_extend(s: Seq<u8>, t: Seq<u8>, i: int)
    ensures
        header_at(s, i) ==> header_at(s + t, i),
        i + 1 < s.len() ==> (header_at(s + t, i) == header_at(s, i)),
{
}

/// A search that starts in `s` finds the same header in `s + t`.
proof fn lemma_first_header_extend(s: Seq<u8>, t: Seq<u8>, j: nat)
    requires
        first_header_from(s, j) is Some,
    ensures
        first_header_from(s + t, j) == first_header_from(s, j),
    decreases s.len() - j,
{
    lemma_header_extend(s, t, j as int);
    if !header_at(s, j as int) {
        lemma_first_header_extend(s, t, j + 1);
    }
}

/// Searching from `m + j` in `u` is searching from `j` in `u.skip(m)`.
proof fn lemma_first_header_skip(u: Seq<u8>, m: nat, j: nat)
    requires
        m <= u.len(),
    ensures
        first_header_from(u.skip(m as int), j) == match first_header_from(u, m + j) {
            Some(k) => Some((k - m) as nat),
            None => None::<nat>,
        },
    decreases u.len() - m - j,
{
    assert(forall|i: int| 0 <= i < u.len() - m ==> u.skip(m as int)[i] == u[m + i]);
    if m + j + 1 < u.len() && !header_at(u, (m + j) as int) {
        lemma_first_header_skip(u, m, j + 1);
    }
}

/// With no header before `m`, the first header of `u` is the first from `m`.
proof fn lemma_first_header_after(u: Seq<u8>, m: nat, j: nat)
    requires
        j <= m,
        forall|i: int| j <= i < m ==> !header_at(u, i),
    ensures
        first_header_from(u, j) == first_header_from(u, m),
    decreases m - j,
{
    if j < m {
        lemma_first_header_after(u, m, j + 1);
    }
}

proof fn lemma_header_at_start(t: Seq<u8>)
    requires
        header_at(t, 0),
    ensures
        first_header_from(t, 0) == Some(0nat),
{
}

/// A buffer that starts with a header but is too short for a whole frame
/// yields no sample and keeps the base, however it is entered.
proof fn lemma_truncated_frame(u: Seq<u8>, i: nat, base: Option<u64>)
    requires
        u.len() >= META_SIZE + SAMPLE_SIZE,
        first_header_from(u, 0) == Some(i),
        u.len() - i < META_SIZE + SAMPLE_SIZE,
    ensures
        parse_stream(u, base).1 == base,
        parse_stream(u, base).2 == Seq::<RawSample>::empty(),
{
    lemma_first_header_from(u, 0);
    let t = u.skip(i as int);
    if t.len() >= META_SIZE && t[10] == 0 {
        assert(t.skip(1).len() < META_SIZE + SAMPLE_SIZE);
        assert(parse_stream(t.skip(1), base) == (t.skip(1), base, Seq::<RawSample>::empty()));
        assert(parse_stream(u, base) == parse_stream(t.skip(1), base));
    } else {
        assert(parse_stream(u, base) == (t, base, Seq::<RawSample>::empty()));
    }
}

/// `s` has no header: what is kept of it, followed by `t`, parses to the
/// same samples and base as `s + t`.
#[verifier::spinoff_prover]
proof fn lemma_split_no_header(s: Seq<u8>, t: Seq<u8>, base: Option<u64>)
    requires
        s.len() >= META_SIZE + SAMPLE_SIZE,
        first_header_from(s, 0) is None,
    ensures
        ({
            let r = s.skip(s.len() - keep_len(s));
            parse_stream(r + t, base).2 == parse_stream(s + t, base).2
                && parse_stream(r + t, base).1 == parse_stream(s + t, base).1
        }),
{
    lemma_first_header_from(s, 0);
    let u = s + t;
    let m = (s.len() - keep_len(s)) as nat;
    let r = s.skip(m as int);
    assert(u.skip(m as int) =~= r + t);
    assert forall|i: int| 0 <= i < m implies !header_at(u, i) by {
        lemma_header_extend(s, t, i);
        if i == s.len() - 1 {
            assert(keep_len(s) == 0);
        }
    }
    lemma_first_header_after(u, m, 0);
    lemma_first_header_skip(u, m, 0);
    lemma_first_header_from(u, 0);
    if (r + t).len() >= META_SIZE + SAMPLE_SIZE {
        match first_header_from(u, 0) {
            Some(k) => {
                assert((r + t).skip((k - m) as int) =~= u.skip(k as int));
            },
            None => {
                assert(keep_len(u) == keep_len(r + t));
                assert((r + t).skip((r + t).len() - keep_len(r + t)) =~= u.skip(u.len() - keep_len(u)));
            },
        }
        assert(parse_stream(r + t, base) == parse_stream(u, base));
    } else {
        match first_header_from(u, 0) {
            Some(k) => {
                lemma_truncated_frame(u, k, base);
            },
            None => {},
        }
    }
}

/// `s` stopped at its first header `s.skip(i)` for want of bytes: that
/// suffix followed by `t` parses to the same samples and base as `s + t`.
#[verifier::spinoff_prover]
proof fn lemma_split_stopped(s: Seq<u8>, t: Seq<u8>, base: Option<u64>, i: nat)
    requires
        s.len() >= META_SIZE + SAMPLE_SIZE,
        first_header_from(s, 0) == Some(i),
    ensures
        parse_stream(s.skip(i as int) + t, base).2 == parse_stream(s + t, base).2,
        parse_stream(s.skip(i as int) + t, base).1 == parse_stream(s + t, base).1,
{
    lemma_first_header_from(s, 0);
    lemma_first_header_extend(s, t, 0);
    let u = s + t;
    let big = s.skip(i as int) + t;
    assert(u.skip(i as int) =~= big);
    lemma_header_extend(s.skip(i as int), t, 0);
    lemma_header_at_start(big);
    if big.len() < META_SIZE + SAMPLE_SIZE {
        lemma_truncated_frame(u, i, base);
    } else {
        assert(big.skip(0) =~= big);
        assert(parse_stream(big, base) == parse_stream(u, base));
    }
}

/// Feeding `s` and then `t` gives the same samples, and the same base
/// timestamp, as feeding `s + t` at once.
#[verifier::spinoff_prover]
pub proof fn lemma_parse_split(s: Seq<u8>, t: Seq<u8>, base: Option<u64>)
    ensures
        ({
            let first = parse_stream(s, base);
            let second = parse_stream(first.0 + t, first.1);
            let whole = parse_stream(s + t, base);
            first.2 + second.2 == whole.2 && second.1 == whole.1
        }),
    decreases s.len(),
{
    let first = parse_stream(s, base);
    if s.len() < META_SIZE + SAMPLE_SIZE {
        assert(first.2 + parse_stream(s + t, base).2 =~= parse_stream(s + t, base).2);
        return;
    }
    lemma_first_header_from(s, 0);
    match first_header_from(s, 0) {
        None => {
            lemma_split_no_header(s, t, base);
            assert(first.2 + parse_stream(first.0 + t, base).2 =~= parse_stream(first.0 + t, base).2);
        },
        Some(i) => {
            lemma_first_header_extend(s, t, 0);
            let ts = s.skip(i as int);
            let u = s + t;
            let big = u.skip(i as int);
            assert(big =~= ts + t);
            if ts.len() < META_SIZE {
                lemma_split_stopped(s, t, base, i);
                assert(first.2 + parse_stream(ts + t, base).2 =~= parse_stream(ts + t, base).2);
            } else if ts[10] == 0 {
                assert(big[10] == 0);
                assert(big.skip(1) =~= ts.skip(1) + t);
                lemma_parse_split(ts.skip(1), t, base);
            } else {
                let frame_len = META_SIZE + SAMPLE_SIZE * ts[10];
                assert(big[10] == ts[10]);
                if ts.len() < frame_len {
                    lemma_split_stopped(s, t, base, i);
                    assert(first.2 + parse_stream(ts + t, base).2 =~= parse_stream(ts + t, base).2);
                } else {
                    let stamp = le_u64_at(ts, 2);
                    assert(le_u64_at(big, 2) == stamp);
                    let b = match base {
                        Some(b) => b,
                        None => stamp,
                    };
                    let e = wrapping_elapsed(stamp, b);
                    lemma_frame_samples_extend(ts, t, ts[10] as int, e);
                    assert(big.skip(frame_len) =~= ts.skip(frame_len) + t);
                    lemma_parse_split(ts.skip(frame_len), t, Some(b));
                    let rest = parse_stream(ts.skip(frame_len), Some(b));
                    let second = parse_stream(rest.0 + t, rest.1);
                    assert(frame_samples(ts, ts[10] as int, e) + rest.2 + second.2 =~= frame_samples(
                        ts,
                        ts[10] as int,
                        e,
                    ) + (rest.2 + second.2));
                }
            }
        },
    }
}

/// Samples of a complete frame do not depend on the bytes after it.
proof fn lemma_frame_samples_extend(f: Seq<u8>, t: Seq<u8>, n: int, e: u64)
    requires
        0 <= n,
        f.len() >= META_SIZE + SAMPLE_SIZE * n,
    ensures
        frame_samples(f + t, n, e) == frame_samples(f, n, e),
    decreases n,
{
    if n > 0 {
        lemma_frame_samples_extend(f, t, n - 1, e);
        assert(raw_sample_at(f + t, n - 1, e) == raw_sample_at(f, n - 1, e));
    }
}

/// Every sample the parser yields passed the plausibility rule.
pub proof fn lemma_parsed_samples_plausible(s: Seq<u8>, base: Option<u64>)
    ensures
        forall|k: int| 0 <= k < parse_stream(s, base).2.len() ==> plausible(
            #[trigger] parse_stream(s, base).2[k],
        ),
    decreases s.len(),
{
    if s.len() >= META_SIZE + SAMPLE_SIZE {
        lemma_first_header_from(s, 0);
        match first_header_from(s, 0) {
            None => {},
            Some(i) => {
                let t = s.skip(i as int);
                if t.len() >= META_SIZE {
                    if t[10] == 0 {
                        lemma_parsed_samples_plausible(t.skip(1), base);
                        assert(parse_stream(s, base) == parse_stream(t.skip(1), base));
                    } else {
                        let frame_len = META_SIZE + SAMPLE_SIZE * t[10];
                        if t.len() >= frame_len {
                            let stamp = le_u64_at(t, 2);
                            let b = match base {
                                Some(b) => b,
                                None => stamp,
                            };
                            lemma_parsed_samples_plausible(t.skip(frame_len), Some(b));
                            let e = wrapping_elapsed(stamp, b);
                            lemma_frame_samples_plausible(t, t[10] as int, e);
                            let fs = frame_samples(t, t[10] as int, e);
                            let rest = parse_stream(t.skip(frame_len), Some(b)).2;
                            let all = parse_stream(s, base).2;
                            assert(all == fs + rest);
                            assert forall|k: int| 0 <= k < all.len() implies plausible(#[trigger] all[k]) by {
                                if k < fs.len() {
                                    assert(all[k] == fs[k]);
                                } else {
                                    assert(all[k] == rest[k - fs.len()]);
                                }
                            }
                        }
                    }
                }
            },
        }
    }
}

proof fn lemma_frame_samples_plausible(f: Seq<u8>, n: int, e: u64)
    ensures
        forall|k: int| 0 <= k < frame_samples(f, n, e).len() ==> plausible(
            #[trigger] frame_samples(f, n, e)[k],
        ),
    decreases n,
{
    if n > 0 {
        lemma_frame_samples_plausible(f, n - 1, e);
        let prev = frame_samples(f, n - 1, e);
        let r = raw_sample_at(f, n - 1, e);
        let all = frame_samples(f, n, e);
        assert forall|k: int| 0 <= k < all.len() implies plausible(#[trigger] all[k]) by {
            if k < prev.len() {
                assert(all[k] == prev[k]);
            } else {
                assert(all[k] == r);
            }
        }
    }
}

/// Reassembles measurement frames from a byte stream.
pub struct FrameParser {
    buffer: Vec<u8>,
    base_timestamp_us: Option<u64>,
}

/// The bytes of `v` from `k` on.
fn tail(v: &Vec<u8>, k: usize) -> (r: Vec<u8>)
    requires
        k <= v.len(),
    ensures
        r@ == v@.skip(k as int),
{
    let mut r: Vec<u8> = Vec::new();
    let mut j: usize = k;
    while j < v.len()
        invariant
            k <= j <= v.len(),
            r@ == v@.subrange(k as int, j as int),
        decreases v.len() - j,
    {
        r.push(v[j]);
        assert(v@.subrange(k as int, j + 1) =~= v@.subrange(k as int, j as int).push(v@[j as int]));
        j = j + 1;
    }
    assert(v@.subrange(k as int, v.len() as int) =~= v@.skip(k as int));
    r
}

fn find_header(v: &Vec<u8>) -> (r: Option<usize>)
    ensures
        match r {
            Some(i) => first_header_from(v@, 0) == Some(i as nat),
            None => first_header_from(v@, 0) is None,
        },
{
    let mut j: usize = 0;
    while j < v.len() && j + 1 < v.len()
        invariant
            j <= v.len(),
            first_header_from(v@, 0) == first_header_from(v@, j as nat),
        decreases v.len() - j,
    {
        if v[j] == HEADER0 && v[j + 1] == HEADER1 {
            return Some(j);
        }
        j = j + 1;
    }
    None
}

fn le_u16(v: &Vec<u8>, i: usize) -> (r: u16)
    requires
        i + 1 < v.len(),
    ensures
        r == le_u16_at(v@, i as int),
{
    v[i] as u16 + 256 * (v[i + 1] as u16)
}

fn le_u64(v: &Vec<u8>, i: usize) -> (r: u64)
    requires
        i + 7 < v.len(),
    ensures
        r == le_u64_at(v@, i as int),
{
    v[i] as u64 + 0x100 * (v[i + 1] as u64) + 0x1_0000 * (v[i + 2] as u64) + 0x100_0000 * (v[i
        + 3] as u64) + 0x1_0000_0000 * (v[i + 4] as u64) + 0x100_0000_0000 * (v[i + 5] as u64)
        + 0x1_0000_0000_0000 * (v[i + 6] as u64) + 0x100_0000_0000_0000 * (v[i + 7] as u64)
}

impl FrameParser {
    /// Bytes held back until more of the stream arrives.
    pub closed spec fn pending(&self) -> Seq<u8> {
        self.buffer@
    }

    /// Timestamp of the first complete frame, once one was seen.
    pub closed spec fn base(&self) -> Option<u64> {
        self.base_timestamp_us
    }

    /// A parser that has seen nothing.
    pub fn new() -> (p: FrameParser)
        ensures
            p.pending() == Seq::<u8>::empty(),
            p.base() is None,
    {
        FrameParser { buffer: Vec::new(), base_timestamp_us: None }
    }

    /// Appends `bytes` to the stream and returns the plausible samples of
    /// every frame completed so far.
    pub fn push(&mut self, bytes: &[u8]) -> (out: Vec<RawSample>)
        ensures
            (final(self).pending(), final(self).base(), out@) == parse_stream(
                old(self).pending() + bytes@,
                old(self).base(),
            ),
    {
        let mut cur: Vec<u8> = Vec::new();
        std::mem::swap(&mut cur, &mut self.buffer);
        let mut k: usize = 0;
        let ghost start = cur@;
        while k < bytes.len()
            invariant
                0 <= k <= bytes.len(),
                cur@ == start + bytes@.take(k as int),
            decreases bytes.len() - k,
        {
            cur.push(bytes[k]);
            assert(bytes@.take(k + 1) =~= bytes@.take(k as int).push(bytes@[k as int]));
            k = k + 1;
        }
        assert(bytes@.take(bytes.len() as int) =~= bytes@);
        let ghost total = cur@;
        let mut base: Option<u64> = self.base_timestamp_us;
        let ghost base0 = base;
        let mut output: Vec<RawSample> = Vec::new();
        loop
            invariant_except_break
                parse_stream(total, base0) == (
                    parse_stream(cur@, base).0,
                    parse_stream(cur@, base).1,
                    output@ + parse_stream(cur@, base).2,
                ),
            ensures
                parse_stream(total, base0) == (cur@, base, output@),
            decreases cur@.len(),
        {
            if cur.len() < META_SIZE + SAMPLE_SIZE {
                assert(output@ + Seq::<RawSample>::empty() =~= output@);
                break;
            }
            let ghost s = cur@;
            match find_header(&cur) {
                None => {
                    let keep: usize = if cur[cur.len() - 1] == HEADER0 { 1 } else { 0 };
                    cur = tail(&cur, cur.len() - keep);
                    assert(output@ + Seq::<RawSample>::empty() =~= output@);
                    break;
                },
                Some(i) => {
                    proof {
                        lemma_first_header_from(s, 0);
                    }
                    if i > 0 {
                        cur = tail(&cur, i);
                    } else {
                        assert(s.skip(0) =~= s);
                    }
                    if cur.len() < META_SIZE {
                        assert(output@ + Seq::<RawSample>::empty() =~= output@);
                        break;
                    }
                    let timestamp_us = le_u64(&cur, 2);
                    let count = cur[10];
                    if count == 0 {
                        cur = tail(&cur, 1);
                    } else {
                        let frame_len: usize = META_SIZE + (count as usize) * SAMPLE_SIZE;
                        if cur.len() < frame_len {
                            assert(output@ + Seq::<RawSample>::empty() =~= output@);
                            break;
                        }
                        let b: u64 = match base {
                            Some(b) => b,
                            None => timestamp_us,
                        };
                        base = Some(b);
                        let elapsed = timestamp_us.wrapping_sub(b);
                        assert(elapsed == wrapping_elapsed(timestamp_us, b));
                        let ghost out_before = output@;
                        let mut index: u8 = 0;
                        while index < count
                            invariant
                                0 <= index <= count,
                                count == cur@[10],
                                cur.len() >= META_SIZE + SAMPLE_SIZE * count,
                                output@ == out_before + frame_samples(cur@, index as int, elapsed),
                            decreases count - index,
                        {
                            let offset: usize = META_SIZE + (index as usize) * SAMPLE_SIZE;
                            let r = RawSample {
                                elapsed_us: elapsed,
                                index,
                                range: cur[offset],
                                voltage_adc: le_u16(&cur, offset + 1),
                                current_adc: le_u16(&cur, offset + 3),
                                reference_adc: le_u16(&cur, offset + 5),
                            };
                            assert(r == raw_sample_at(cur@, index as int, elapsed));
                            if r.range >= 1 && r.range <= 3 && r.reference_adc >= MIN_REFERENCE_ADC
                                && r.reference_adc <= MAX_REFERENCE_ADC && r.voltage_adc
                                <= MAX_VOLT_ADC && r.current_adc <= MAX_CURRENT_ADC {
                                output.push(r);
                            }
                            index = index + 1;
                        }
                        cur = tail(&cur, frame_len);
                        assert(output@ + parse_stream(cur@, base).2 =~= out_before + (frame_samples(
                            s.skip(i as int),
                            count as int,
                            elapsed,
                        ) + parse_stream(cur@, base).2));
                    }
                },
            }
        }
        self.buffer = cur;
        self.base_timestamp_us = base;
        output
    }
}

impl Default for FrameParser {
    fn default() -> (p: FrameParser)
        ensures
            p.pending() == Seq::<u8>::empty(),
            p.base() is None,
    {
        FrameParser::new()
    }
}

/// Every sample a frame yields carries the frame's elapsed time.
proof fn lemma_frame_samples_elapsed(frame: Seq<u8>, n: int, elapsed: u64)
    ensures
        forall|k: int| 0 <= k < frame_samples(frame, n, elapsed).len() ==> (#[trigger] frame_samples(
            frame,
            n,
            elapsed,
        )[k]).elapsed_us == elapsed,
    decreases n,
{
    if n > 0 {
        lemma_frame_samples_elapsed(frame, n - 1, elapsed);
        let prev = frame_samples(frame, n - 1, elapsed);
        assert forall|k: int| 0 <= k < frame_samples(frame, n, elapsed).len() implies (
        #[trigger] frame_samples(frame, n, elapsed)[k]).elapsed_us == elapsed by {
            if k < prev.len() {
                assert(frame_samples(frame, n, elapsed)[k] == prev[k]);
            }
        }
    }
}

/// Eight bytes holding `t` least significant first read back as `t`.
pub proof fn lemma_timestamp_bytes(s: Seq<u8>, i: int, t: u64)
    requires
        0 <= i,
        i + 8 <= s.len(),
        s[i] == t % 0x100,
        s[i + 1] == (t / 0x100) % 0x100,
        s[i + 2] == (t / 0x1_0000) % 0x100,
        s[i + 3] == (t / 0x100_0000) % 0x100,
        s[i + 4] == (t / 0x1_0000_0000) % 0x100,
        s[i + 5] == (t / 0x100_0000_0000) % 0x100,
        s[i + 6] == (t / 0x1_0000_0000_0000) % 0x100,
        s[i + 7] == (t / 0x100_0000_0000_0000) % 0x100,
    ensures
        le_u64_at(s, i) == t,
{
    let b0: u8 = s[i];
    let b1: u8 = s[i + 1];
    let b2: u8 = s[i + 2];
    let b3: u8 = s[i + 3];
    let b4: u8 = s[i + 4];
    let b5: u8 = s[i + 5];
    let b6: u8 = s[i + 6];
    let b7: u8 = s[i + 7];
    assert(b0 + 0x100 * b1 + 0x1_0000 * b2 + 0x100_0000 * b3 + 0x1_0000_0000 * b4 + 0x100_0000_0000 * b5
        + 0x1_0000_0000_0000 * b6 + 0x100_0000_0000_0000 * b7 == t) by (bit_vector)
        requires
            b0 == t % 0x100,
            b1 == (t / 0x100) % 0x100,
            b2 == (t / 0x1_0000) % 0x100,
            b3 == (t / 0x100_0000) % 0x100,
            b4 == (t / 0x1_0000_0000) % 0x100,
            b5 == (t / 0x100_0000_0000) % 0x100,
            b6 == (t / 0x1_0000_0000_0000) % 0x100,
            b7 == (t / 0x100_0000_0000_0000) % 0x100,
    ;
}

/// A frame's time stamp is all eight of its bytes 2..10, least significant
/// first: for a stream that is one complete frame stamped `ts`, every sample
/// it yields lies `ts - base` microseconds (modulo 2^64) after the base, and
/// the base is `ts` when none was set.
pub proof fn lemma_frame_time_stamp(frame: Seq<u8>, base: Option<u64>, ts: u64)
    requires
        frame.len() >= META_SIZE,
        frame[0] == HEADER0,
        frame[1] == HEADER1,
        frame[10] > 0,
        frame.len() == META_SIZE + SAMPLE_SIZE * frame[10],
        frame[2] == ts % 0x100,
        frame[3] == (ts / 0x100) % 0x100,
        frame[4] == (ts / 0x1_0000) % 0x100,
        frame[5] == (ts / 0x100_0000) % 0x100,
        frame[6] == (ts / 0x1_0000_0000) % 0x100,
        frame[7] == (ts / 0x100_0000_0000) % 0x100,
        frame[8] == (ts / 0x1_0000_0000_0000) % 0x100,
        frame[9] == (ts / 0x100_0000_0000_0000) % 0x100,
    ensures
        ({
            let b: u64 = match base {
                Some(b) => b,
                None => ts,
            };
            let out = parse_stream(frame, base);
            &&& out.1 == Some(b)
            &&& forall|k: int| 0 <= k < out.2.len() ==> ((#[trigger] out.2[k]).elapsed_us + b) % 0x1_0000_0000_0000_0000int
                == ts
        }),
{
    lemma_timestamp_bytes(frame, 2, ts);
    assert(header_at(frame, 0));
    lemma_header_at_start(frame);
    assert(frame.skip(0) =~= frame);
    let b: u64 = match base {
        Some(b) => b,
        None => ts,
    };
    let frame_len = META_SIZE + SAMPLE_SIZE * frame[10];
    let t = frame.skip(0);
    assert(t.len() >= META_SIZE && t[10] != 0 && t.len() >= frame_len);
    assert(le_u64_at(t, 2) == ts);
    let rest_in = t.skip(frame_len as int);
    assert(rest_in.len() == 0);
    let rest = parse_stream(rest_in, Some(b));
    assert(rest == (rest_in, Some(b), Seq::<RawSample>::empty()));
    let e = wrapping_elapsed(ts, b);
    lemma_frame_samples_elapsed(frame, frame[10] as int, e);
    let fs = frame_samples(t, t[10] as int, e);
    assert(first_header_from(frame, 0) == Some(0nat));
    assert(parse_stream(frame, base) == (rest.0, rest.1, fs + rest.2));
    assert(fs + Seq::<RawSample>::empty() =~= fs);
    assert((e + b) % 0x1_0000_0000_0000_0000int == ts);
}

/// The bytes of sample `k` of a frame pass the measurement checks: a range
/// of 1 to 3, a reference of 1998 to 2098, a voltage of at most 2730 and a
/// current of at most 4096 (ADC counts, little-endian).
pub open spec fn sample_bytes_valid(frame: Seq<u8>, k: int) -> bool {
    let o = 11 + 7 * k;
    &&& 1 <= frame[o] <= 3
    &&& frame[o + 1] + 256 * frame[o + 2] <= 2730
    &&& frame[o + 3] + 256 * frame[o + 4] <= 4096
    &&& 1998 <= frame[o + 5] + 256 * frame[o + 6] <= 2098
}

proof fn lemma_frame_samples_all(frame: Seq<u8>, n: int, e: u64)
    requires
        0 <= n,
        forall|k: int| 0 <= k < n ==> #[trigger] plausible(raw_sample_at(frame, k, e)),
    ensures
        frame_samples(frame, n, e).len() == n,
        forall|k: int| 0 <= k < n ==> #[trigger] frame_samples(frame, n, e)[k] == raw_sample_at(frame, k, e),
    decreases n,
{
    if n > 0 {
        lemma_frame_samples_all(frame, n - 1, e);
        assert(plausible(raw_sample_at(frame, n - 1, e)));
        let prev = frame_samples(frame, n - 1, e);
        assert forall|k: int| 0 <= k < n implies #[trigger] frame_samples(frame, n, e)[k] == raw_sample_at(
            frame,
            k,
            e,
        ) by {
            if k < n - 1 {
                assert(frame_samples(frame, n, e)[k] == prev[k]);
            }
        }
    }
}

/// The layout of a frame's samples: for a stream that is one complete frame
/// whose samples all pass the checks, sample `k` comes out `k`-th, with
/// index `k`, the range byte `11 + 7k`, and the voltage, current and
/// reference read little-endian from bytes `12 + 7k`, `14 + 7k` and
/// `16 + 7k`.
pub proof fn lemma_frame_sample_layout(frame: Seq<u8>, base: Option<u64>)
    requires
        frame.len() >= META_SIZE,
        frame[0] == HEADER0,
        frame[1] == HEADER1,
        frame[10] > 0,
        frame.len() == META_SIZE + SAMPLE_SIZE * frame[10],
        forall|k: int| 0 <= k < frame[10] ==> #[trigger] sample_bytes_valid(frame, k),
    ensures
        ({
            let out = parse_stream(frame, base).2;
            &&& out.len() == frame[10]
            &&& forall|k: int| 0 <= k < out.len() ==> {
                let o = 11 + 7 * k;
                &&& (#[trigger] out[k]).index == k
                &&& out[k].range == frame[o]
                &&& out[k].voltage_adc == frame[o + 1] + 256 * frame[o + 2]
                &&& out[k].current_adc == frame[o + 3] + 256 * frame[o + 4]
                &&& out[k].reference_adc == frame[o + 5] + 256 * frame[o + 6]
            }
        }),
{
    let ts = le_u64_at(frame, 2);
    let b: u64 = match base {
        Some(b) => b,
        None => ts,
    };
    assert(header_at(frame, 0));
    lemma_header_at_start(frame);
    assert(frame.skip(0) =~= frame);
    let frame_len = META_SIZE + SAMPLE_SIZE * frame[10];
    let t = frame.skip(0);
    assert(t.len() >= META_SIZE && t[10] != 0 && t.len() >= frame_len);
    let rest_in = t.skip(frame_len as int);
    assert(rest_in.len() == 0);
    let rest = parse_stream(rest_in, Some(b));
    assert(rest == (rest_in, Some(b), Seq::<RawSample>::empty()));
    let e = wrapping_elapsed(ts, b);
    let n = frame[10] as int;
    assert forall|k: int| 0 <= k < n implies #[trigger] plausible(raw_sample_at(frame, k, e)) by {
        assert(sample_bytes_valid(frame, k));
        assert(sample_offset(k) == 11 + 7 * k);
    }
    lemma_frame_samples_all(frame, n, e);
    let fs = frame_samples(t, t[10] as int, e);
    assert(parse_stream(frame, base) == (rest.0, rest.1, fs + rest.2));
    assert(fs + Seq::<RawSample>::empty() =~= fs);
    assert forall|k: int| 0 <= k < n implies {
        let o = 11 + 7 * k;
        &&& (#[trigger] fs[k]).index == k
        &&& fs[k].range == frame[o]
        &&& fs[k].voltage_adc == frame[o + 1] + 256 * frame[o + 2]
        &&& fs[k].current_adc == frame[o + 3] + 256 * frame[o + 4]
        &&& fs[k].reference_adc == frame[o + 5] + 256 * frame[o + 6]
    } by {
        assert(fs[k] == raw_sample_at(frame, k, e));
        assert(sample_offset(k) == 11 + 7 * k);
        assert(k < 256);
    }
}

} // verus!
