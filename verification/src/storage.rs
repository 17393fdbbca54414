//! Recording files: raw samples (L0) and five levels of aggregates (L1..L5)
//! beside them; the checks an imported recording must pass, file names, and
//! the choice of level and grouping when a time range is drawn.
use vstd::prelude::*;

use crate::error::CoreError;
use crate::paths::{
    file_extension, joined, lemma_joined_path_file_name, lemma_last_dot_of_bin, path_extension,
};
use crate::text::{chars_of, decimal, is_digit, lemma_decimal_roundtrip, push_decimal, push_str, string_from_chars};

verus! {

/// Bytes per raw sample: time (f64), voltage (f32), current (f32).
pub const L0_SIZE: u64 = 16;
/// Bytes per aggregate: start and end time (f64), then min, max and average
/// of voltage and of current (f32).
pub const LN_SIZE: u64 = 40;
/// Items of one level combined into one item of the next.
pub const LEVEL_RATIO: usize = 100;
pub const MAX_LEVELS: usize = 5;

/// `s` equals `bin` ignoring ASCII case.
pub open spec fn is_bin_extension(s: Seq<char>) -> bool {
    &&& s.len() == 3
    &&& (s[0] == 'b' || s[0] == 'B')
    &&& (s[1] == 'i' || s[1] == 'I')
    &&& (s[2] == 'n' || s[2] == 'N')
}

/// The file name of `path` has the extension `bin`, in any case.
pub open spec fn has_bin_extension(path: Seq<char>) -> bool {
    match path_extension(path) {
        Some(e) => is_bin_extension(e),
        None => false,
    }
}

/// A recording must be a `.bin` file (any case).
pub fn validate_l0_name(path: &str) -> (r: Result<(), CoreError>)
    ensures
        has_bin_extension(path@) ==> r is Ok,
        !has_bin_extension(path@) ==> (r matches Err(CoreError::InvalidRecording(m)) && m@
            == "expected a .bin file"@),
{
    let ok = match file_extension(path) {
        Some(ext) => {
            let cs = chars_of(ext.as_str());
            cs.len() == 3 && (cs[0] == 'b' || cs[0] == 'B') && (cs[1] == 'i' || cs[1] == 'I') && (
            cs[2] == 'n' || cs[2] == 'N')
        },
        None => false,
    };
    if ok {
        Ok(())
    } else {
        Err(CoreError::InvalidRecording(String::from_str("expected a .bin file")))
    }
}

/// A recording holds at least one sample and only whole samples.
pub fn validate_l0_size(size: u64) -> (r: Result<(), CoreError>)
    ensures
        (size != 0 && size % L0_SIZE == 0) ==> r is Ok,
        !(size != 0 && size % L0_SIZE == 0) ==> (r matches Err(CoreError::InvalidRecording(m)) && m@
            == "file size "@ + decimal(size as nat) + " is not a multiple of "@ + decimal(16)),
{
    if size == 0 || size % L0_SIZE != 0 {
        let mut out: Vec<char> = Vec::new();
        push_str(&mut out, "file size ");
        push_decimal(&mut out, size);
        push_str(&mut out, " is not a multiple of ");
        push_decimal(&mut out, L0_SIZE);
        return Err(CoreError::InvalidRecording(string_from_chars(&out)));
    }
    Ok(())
}

/// Decimal text of a signed number.
pub open spec fn signed_decimal(n: i64) -> Seq<char> {
    if n < 0 { seq!['-'] + decimal((-n) as nat) } else { decimal(n as nat) }
}

/// Name of a new recording started at Unix time `timestamp`.
pub open spec fn record_name(timestamp: i64) -> Seq<char> {
    "record_"@ + signed_decimal(timestamp) + ".bin"@
}

/// `record_<timestamp>.bin`.
pub fn record_file_name(timestamp: i64) -> (r: String)
    ensures
        r@ == record_name(timestamp),
{
    let mut out: Vec<char> = Vec::new();
    push_str(&mut out, "record_");
    if timestamp < 0 {
        out.push('-');
        let magnitude: u64 = (0i128 - (timestamp as i128)) as u64;
        push_decimal(&mut out, magnitude);
    } else {
        push_decimal(&mut out, timestamp as u64);
    }
    push_str(&mut out, ".bin");
    string_from_chars(&out)
}

/// A recording the client creates, in whatever directory, passes the name
/// check that an imported recording must pass.
pub proof fn lemma_recordings_have_bin_names(dir: Seq<char>, timestamp: i64)
    ensures
        has_bin_extension(joined(dir, record_name(timestamp))),
{
    reveal_strlit("record_");
    reveal_strlit(".bin");
    reveal_strlit("bin");
    let digits = if timestamp < 0 { (-timestamp) as nat } else { timestamp as nat };
    lemma_decimal_roundtrip(digits);
    let stem = "record_"@ + signed_decimal(timestamp);
    let name = record_name(timestamp);
    assert(name =~= stem + ".bin"@);
    assert forall|k: int| 0 <= k < signed_decimal(timestamp).len() implies signed_decimal(timestamp)[k]
        != '/' by {
        if timestamp < 0 {
            if k > 0 {
                assert(signed_decimal(timestamp)[k] == decimal(digits)[k - 1]);
                assert(is_digit(decimal(digits)[k - 1]));
            }
        } else {
            assert(is_digit(decimal(digits)[k]));
        }
    }
    assert forall|k: int| 0 <= k < name.len() implies name[k] != '/' by {
        if 7 <= k < 7 + signed_decimal(timestamp).len() {
            assert(name[k] == signed_decimal(timestamp)[k - 7]);
        }
    }
    reveal_strlit(".");
    reveal_strlit("..");
    assert(name.len() > 2);
    lemma_joined_path_file_name(dir, name);
    lemma_last_dot_of_bin(stem);
    assert(name.skip(stem.len() + 1int) =~= "bin"@);
}

/// Names of the exported files for the time stamp `stamp`.
pub struct ExportNames {
    pub l0: String,
    /// `levels[k]` is the name of level `k + 1`.
    pub levels: Vec<String>,
    pub csv: String,
}

/// `record_<stamp>.bin`, `record_<stamp>.L<n>.bin` for n in 1..=5, and
/// `record_<stamp>.csv`.
pub fn export_names(stamp: &str) -> (r: ExportNames)
    ensures
        r.l0@ == "record_"@ + stamp@ + ".bin"@,
        r.csv@ == "record_"@ + stamp@ + ".csv"@,
        r.levels@.len() == MAX_LEVELS,
        forall|k: int| 0 <= k < MAX_LEVELS ==> #[trigger] r.levels@[k]@ == "record_"@ + stamp@ + ".L"@
            + decimal((k + 1) as nat) + ".bin"@,
{
    let mut l0: Vec<char> = Vec::new();
    push_str(&mut l0, "record_");
    push_str(&mut l0, stamp);
    push_str(&mut l0, ".bin");
    let mut csv: Vec<char> = Vec::new();
    push_str(&mut csv, "record_");
    push_str(&mut csv, stamp);
    push_str(&mut csv, ".csv");
    let mut levels: Vec<String> = Vec::new();
    let mut level: usize = 1;
    while level <= MAX_LEVELS
        invariant
            1 <= level <= MAX_LEVELS + 1,
            levels@.len() == level - 1,
            forall|k: int| 0 <= k < level - 1 ==> #[trigger] levels@[k]@ == "record_"@ + stamp@ + ".L"@
                + decimal((k + 1) as nat) + ".bin"@,
        decreases MAX_LEVELS + 1 - level,
    {
        let mut name: Vec<char> = Vec::new();
        push_str(&mut name, "record_");
        push_str(&mut name, stamp);
        push_str(&mut name, ".L");
        push_decimal(&mut name, level as u64);
        push_str(&mut name, ".bin");
        levels.push(string_from_chars(&name));
        level = level + 1;
    }
    ExportNames { l0: string_from_chars(&l0), levels, csv: string_from_chars(&csv) }
}

/// The aggregation level drawn: starting from the raw samples at `density`
/// points per pixel, go one level up (dividing the density by 100) while the
/// density exceeds 100 and the next level's file holds at least one item.
pub open spec fn render_level_from(density: nat, level: nat, level_sizes: Seq<u64>) -> nat
    decreases MAX_LEVELS - level,
{
    if density > 100 && level < MAX_LEVELS && level < level_sizes.len() && level_sizes[level as int]
        >= LN_SIZE {
        render_level_from(density / 100, level + 1, level_sizes)
    } else {
        level
    }
}

/// The level drawn: raw samples while there are at most 100 points per
/// pixel; one level up whenever there are more than 100 and that level's
/// file holds an aggregate; and only levels whose files hold aggregates.
pub proof fn lemma_render_level_choice(density: nat, level: nat, level_sizes: Seq<u64>)
    requires
        level <= MAX_LEVELS,
    ensures
        render_level_from(density, level, level_sizes) >= level,
        density > 100 && level < MAX_LEVELS && level < level_sizes.len() && level_sizes[level as int] >= LN_SIZE
            ==> render_level_from(density, level, level_sizes) >= level + 1,
        density <= 100 ==> render_level_from(density, level, level_sizes) == level,
        forall|j: int| level <= j < render_level_from(density, level, level_sizes) ==> #[trigger] level_sizes[j]
            >= LN_SIZE,
    decreases MAX_LEVELS - level,
{
    if density > 100 && level < MAX_LEVELS && level < level_sizes.len() && level_sizes[level as int] >= LN_SIZE {
        lemma_render_level_choice(density / 100, level + 1, level_sizes);
    }
}

/// Chooses the level to draw `raw_points` samples across `pixel_width`
/// pixels; `level_sizes[k]` is the byte size of level `k + 1` (0 if missing).
pub fn select_render_level(raw_points: usize, pixel_width: usize, level_sizes: &[u64]) -> (r: usize)
    ensures
        r == render_level_from(
            (raw_points / (if pixel_width == 0 { 1 } else { pixel_width })) as nat,
            0,
            level_sizes@,
        ),
        r <= MAX_LEVELS,
        raw_points / (if pixel_width == 0 { 1 } else { pixel_width }) > 100 && level_sizes.len() >= 1
            && level_sizes[0] >= LN_SIZE ==> r >= 1,
        raw_points / (if pixel_width == 0 { 1 } else { pixel_width }) <= 100 ==> r == 0,
        forall|j: int| 0 <= j < r ==> #[trigger] level_sizes[j] >= LN_SIZE,
{
    proof {
        lemma_render_level_choice(
            (raw_points / (if pixel_width == 0 { 1 } else { pixel_width })) as nat,
            0,
            level_sizes@,
        );
    }
    let width = if pixel_width == 0 { 1 } else { pixel_width };
    let mut density = raw_points / width;
    let mut level: usize = 0;
    while density > 100 && level < MAX_LEVELS && level < level_sizes.len() && level_sizes[level] >= LN_SIZE
        invariant
            level <= MAX_LEVELS,
            render_level_from((raw_points / width) as nat, 0, level_sizes@) == render_level_from(
                density as nat,
                level as nat,
                level_sizes@,
            ),
        decreases MAX_LEVELS - level,
    {
        level = level + 1;
        density = density / 100;
    }
    level
}

/// Items per drawn point: at most two points per pixel, at least one item each.
pub open spec fn render_chunk(items: int, pixel_width: int) -> int {
    let target: int = (if pixel_width == 0 { 1 } else { pixel_width }) * 2;
    let c: int = (items + target - 1) / target;
    if c == 0 { 1 } else { c }
}

pub fn render_chunk_size(items: usize, pixel_width: usize) -> (r: usize)
    requires
        pixel_width <= usize::MAX / 2,
    ensures
        r == render_chunk(items as int, pixel_width as int),
{
    let target = (if pixel_width == 0 { 1 } else { pixel_width }) * 2;
    assert(items / target <= items / 2) by (nonlinear_arith)
        requires
            target >= 2,
    ;
    let c = items / target + if items % target == 0 { 0 } else { 1 };
    assert(c as int == (items as int + target as int - 1) / (target as int)) by (nonlinear_arith)
        requires
            target > 0,
            c as int == items as int / target as int + if items as int % target as int == 0 { 0int } else { 1int },
    ;
    if c == 0 { 1 } else { c }
}

/// Drawing keeps to two points per pixel: grouping `items` by
/// `render_chunk` leaves at most twice the pixel width (at least one pixel)
/// of groups.
pub proof fn lemma_render_groups_fit(items: usize, pixel_width: usize)
    ensures
        items <= render_chunk(items as int, pixel_width as int) * ((if pixel_width == 0 { 1int } else {
            pixel_width as int }) * 2),
{
    let target: int = (if pixel_width == 0 { 1int } else { pixel_width as int }) * 2;
    let c: int = (items + target - 1) / target;
    assert(c * target >= items) by (nonlinear_arith)
        requires
            target >= 2,
            c == (items + target - 1) / target,
            items >= 0,
    ;
    if c == 0 {
        assert(items == 0);
    }
}

/// 100 to the power `k`: the raw samples behind one item of level `k`.
pub open spec fn pow100(k: nat) -> nat
    decreases k,
{
    if k == 0 {
        1
    } else {
        100 * pow100((k - 1) as nat)
    }
}

/// The levels that sample number `n` (counting from 1) fills, from level
/// `d` on: level `j`, written to file `L<j+1>`, fills on every
/// `100^(j+1)`-th sample.
pub open spec fn levels_filled_from(n: nat, d: nat) -> nat
    decreases MAX_LEVELS - d,
{
    if d < MAX_LEVELS && n % pow100(d + 1) == 0 {
        levels_filled_from(n, d + 1)
    } else {
        d
    }
}

/// How many levels, from the first, sample number `n` fills: their buffers
/// each combine into one item of their file and pass it one level up.
pub open spec fn levels_filled(n: nat) -> nat {
    levels_filled_from(n, 0)
}

/// Items waiting in the buffer of `level` after `n` samples.
pub open spec fn buffered(n: nat, level: nat) -> nat {
    (n / pow100(level)) % 100
}

/// Samples among the first `n` that fill `level`, so many items its file holds.
pub open spec fn fills_up_to(n: nat, level: nat) -> nat
    decreases n,
{
    if n == 0 {
        0
    } else {
        fills_up_to((n - 1) as nat, level) + (if levels_filled(n) > level { 1nat } else { 0nat })
    }
}

proof fn lemma_pow100_values()
    ensures
        pow100(0) == 1,
        pow100(1) == 100,
        pow100(2) == 10_000,
        pow100(3) == 1_000_000,
        pow100(4) == 100_000_000,
        pow100(5) == 10_000_000_000,
{
    assert(pow100(0) == 1);
    assert(pow100(1) == 100);
    assert(pow100(2) == 10_000);
    assert(pow100(3) == 1_000_000);
    assert(pow100(4) == 100_000_000);
    assert(pow100(5) == 10_000_000_000);
}

proof fn lemma_pow100_positive(k: nat)
    ensures
        pow100(k) > 0,
    decreases k,
{
    if k > 0 {
        lemma_pow100_positive((k - 1) as nat);
    }
}

/// What `100^k` divides, `100^j` divides for `j <= k`.
proof fn lemma_divides_down(n: nat, j: nat, k: nat)
    requires
        j <= k,
        n % pow100(k) == 0,
    ensures
        n % pow100(j) == 0,
    decreases k - j,
{
    if j < k {
        let km = (k - 1) as nat;
        lemma_pow100_positive(km);
        let q = n / pow100(k);
        vstd::arithmetic::div_mod::lemma_fundamental_div_mod(n as int, pow100(k) as int);
        assert(n == (q * 100) * pow100(km)) by (nonlinear_arith)
            requires
                n == pow100(k) * q + 0,
                pow100(k) == 100 * pow100(km),
        ;
        vstd::arithmetic::div_mod::lemma_mod_multiples_basic((q * 100) as int, pow100(km) as int);
        lemma_divides_down(n, j, km);
    }
}

/// From a level `d` that `n` reaches, `n` fills level `k - 1` exactly when
/// `100^k` divides it.
proof fn lemma_levels_filled_from(n: nat, d: nat, k: nat)
    requires
        d <= MAX_LEVELS,
        d < k <= MAX_LEVELS,
    ensures
        levels_filled_from(n, d) >= k <==> n % pow100(k) == 0,
    decreases MAX_LEVELS - d,
{
    if n % pow100(d + 1) == 0 {
        if d + 1 < k {
            lemma_levels_filled_from(n, d + 1, k);
        } else {
            lemma_levels_filled_at_least(n, d + 1);
        }
    } else {
        if n % pow100(k) == 0 {
            lemma_divides_down(n, d + 1, k);
        }
    }
}

proof fn lemma_levels_filled_at_least(n: nat, d: nat)
    requires
        d <= MAX_LEVELS,
    ensures
        levels_filled_from(n, d) >= d,
    decreases MAX_LEVELS - d,
{
    if d < MAX_LEVELS && n % pow100(d + 1) == 0 {
        lemma_levels_filled_at_least(n, d + 1);
    }
}

/// One more sample adds one to `n / p` exactly when `p` divides it.
proof fn lemma_div_step(n: nat, p: nat)
    requires
        n >= 1,
        p > 0,
    ensures
        n / p == ((n - 1) as nat) / p + (if n % p == 0 { 1int } else { 0int }),
{
    let m = (n - 1) as int;
    vstd::arithmetic::div_mod::lemma_fundamental_div_mod(m, p as int);
    let q = m / p as int;
    let r = m % p as int;
    if r == p - 1 {
        assert(n == (q + 1) * p + 0) by (nonlinear_arith)
            requires
                m == p * q + r,
                r == p - 1,
                n == m + 1,
        ;
        vstd::arithmetic::div_mod::lemma_fundamental_div_mod_converse(n as int, p as int, q + 1, 0);
    } else {
        assert(n == q * p + (r + 1)) by (nonlinear_arith)
            requires
                m == p * q + r,
                n == m + 1,
        ;
        vstd::arithmetic::div_mod::lemma_fundamental_div_mod_converse(n as int, p as int, q, r + 1);
    }
}

/// The layout of a recording's aggregate files: after `n` samples the file
/// of level `level` (`L<level+1>`) holds `n / 100^(level+1)` items, and the
/// items that reached the level are those written times 100 plus those still
/// buffered. When the recording finishes, a non-empty buffer adds one last
/// item.
pub proof fn lemma_level_layout(n: nat, level: nat)
    requires
        level < MAX_LEVELS,
    ensures
        fills_up_to(n, level) == n / pow100(level + 1),
        n / pow100(level) == 100 * fills_up_to(n, level) + buffered(n, level),
    decreases n,
{
    lemma_pow100_positive(level);
    lemma_pow100_positive(level + 1);
    if n > 0 {
        lemma_level_layout((n - 1) as nat, level);
        lemma_levels_filled_from(n, 0, level + 1);
        lemma_div_step(n, pow100(level + 1));
    }
    let x = n / pow100(level);
    vstd::arithmetic::div_mod::lemma_div_denominator(n as int, pow100(level) as int, 100);
    assert(pow100(level) * 100 == pow100(level + 1));
    vstd::arithmetic::div_mod::lemma_fundamental_div_mod(x as int, 100);
}

/// How many levels sample number `n` fills (see `levels_filled`).
pub fn levels_filled_by(n: u64) -> (d: usize)
    ensures
        d == levels_filled(n as nat),
        d <= MAX_LEVELS,
{
    proof {
        lemma_pow100_values();
    }
    let mut d: usize = 0;
    let mut p: u64 = 100;
    while d < MAX_LEVELS && n % p == 0
        invariant
            d <= MAX_LEVELS,
            d < MAX_LEVELS ==> p == pow100((d + 1) as nat),
            pow100(1) == 100,
            pow100(2) == 10_000,
            pow100(3) == 1_000_000,
            pow100(4) == 100_000_000,
            pow100(5) == 10_000_000_000,
            levels_filled(n as nat) == levels_filled_from(n as nat, d as nat),
        decreases MAX_LEVELS - d,
    {
        d = d + 1;
        if d < MAX_LEVELS {
            p = p * 100;
        }
    }
    d
}

/// Items waiting in the buffer of `level` after `n` samples (see `buffered`).
pub fn level_buffered(n: u64, level: usize) -> (r: u64)
    requires
        level < MAX_LEVELS,
    ensures
        r == buffered(n as nat, level as nat),
{
    proof {
        lemma_pow100_values();
    }
    let mut p: u64 = 1;
    let mut k: usize = 0;
    while k < level
        invariant
            k <= level < MAX_LEVELS,
            p == pow100(k as nat),
            pow100(0) == 1,
            pow100(1) == 100,
            pow100(2) == 10_000,
            pow100(3) == 1_000_000,
            pow100(4) == 100_000_000,
        decreases level - k,
    {
        p = p * 100;
        k = k + 1;
    }
    (n / p) % 100
}

} // verus!
