//! Storage accounting and the data an uninstall removes.
use vstd::prelude::*;

use crate::error::CoreError;
use crate::paths::{join_path, joined};
use crate::paths::{lemma_parts_lt_order, path_less, path_lt, path_parts, same_path, same_path_of};
use crate::text::{chars_of, push_str, string_from_chars};
use crate::types::{StorageUsage, UninstallInfo};

verus! {

/// The application's bundle identifier.
pub const BUNDLE_ID: &'static str = "com.openfeasttech.powerpico-client";

/// Where the application keeps its data.
#[derive(Debug, Clone, PartialEq, Eq)]
pub struct MaintenancePaths {
    pub app_data: String,
    pub cache: String,
    pub logs: String,
    pub home: String,
}

pub open spec fn saturating_add(a: u64, b: u64) -> u64 {
    if a + b > u64::MAX { u64::MAX } else { (a + b) as u64 }
}

/// Sum of `sizes`, saturating at `u64::MAX`.
pub open spec fn saturating_sum(sizes: Seq<u64>) -> u64
    decreases sizes.len(),
{
    if sizes.len() == 0 {
        0
    } else {
        saturating_add(saturating_sum(sizes.drop_last()), sizes.last())
    }
}

pub fn saturating_total(sizes: &[u64]) -> (r: u64)
    ensures
        r == saturating_sum(sizes@),
{
    let mut total: u64 = 0;
    let mut i: usize = 0;
    assert(sizes@.take(0) =~= Seq::<u64>::empty());
    while i < sizes.len()
        invariant
            0 <= i <= sizes.len(),
            total == saturating_sum(sizes@.take(i as int)),
        decreases sizes.len() - i,
    {
        assert(sizes@.take(i + 1).drop_last() =~= sizes@.take(i as int));
        total = total.saturating_add(sizes[i]);
        i = i + 1;
    }
    assert(sizes@.take(sizes.len() as int) =~= sizes@);
    total
}

/// Bytes used by the cache, the application data and the logs.
pub fn storage_usage(cache_bytes: u64, app_data_bytes: u64, log_bytes: u64) -> (r: StorageUsage)
    ensures
        r.cache_bytes == cache_bytes,
        r.app_data_bytes == app_data_bytes,
        r.log_bytes == log_bytes,
        r.total_bytes == saturating_add(saturating_add(cache_bytes, app_data_bytes), log_bytes),
{
    StorageUsage {
        cache_bytes,
        app_data_bytes,
        log_bytes,
        total_bytes: cache_bytes.saturating_add(app_data_bytes).saturating_add(log_bytes),
    }
}

/// The macOS system files of the application, under `home`.
pub open spec fn system_data_paths(home: Seq<char>) -> Seq<Seq<char>> {
    let library = joined(home, "Library"@);
    seq![
        joined(joined(library, "Preferences"@), BUNDLE_ID@ + ".plist"@),
        joined(joined(library, "Saved Application State"@), BUNDLE_ID@ + ".savedState"@),
        joined(joined(library, "WebKit"@), BUNDLE_ID@),
        joined(joined(library, "HTTPStorages"@), BUNDLE_ID@),
    ]
}

fn bundle_file(suffix: &str) -> (r: String)
    ensures
        r@ == BUNDLE_ID@ + suffix@,
{
    let mut out: Vec<char> = Vec::new();
    push_str(&mut out, BUNDLE_ID);
    push_str(&mut out, suffix);
    string_from_chars(&out)
}

impl MaintenancePaths {
    /// Preferences, saved state, WebKit data and HTTP storage of the bundle.
    pub fn system_data(&self) -> (r: Vec<String>)
        ensures
            r@.map_values(|s: String| s@) == system_data_paths(self.home@),
    {
        let library = join_path(self.home.as_str(), "Library");
        let mut r: Vec<String> = Vec::new();
        let prefs = join_path(library.as_str(), "Preferences");
        let plist = bundle_file(".plist");
        r.push(join_path(prefs.as_str(), plist.as_str()));
        let saved = join_path(library.as_str(), "Saved Application State");
        let state = bundle_file(".savedState");
        r.push(join_path(saved.as_str(), state.as_str()));
        let webkit = join_path(library.as_str(), "WebKit");
        r.push(join_path(webkit.as_str(), BUNDLE_ID));
        let http = join_path(library.as_str(), "HTTPStorages");
        r.push(join_path(http.as_str(), BUNDLE_ID));
        assert(r@.map_values(|s: String| s@) =~= system_data_paths(self.home@));
        r
    }

    /// Everything an uninstall removes: data, cache, logs, then system data.
    pub fn all_data(&self) -> (r: Vec<String>)
        ensures
            r@.map_values(|s: String| s@) == seq![self.app_data@, self.cache@, self.logs@] + system_data_paths(
                self.home@,
            ),
    {
        let mut r: Vec<String> = Vec::new();
        r.push(self.app_data.clone());
        r.push(self.cache.clone());
        r.push(self.logs.clone());
        let mut sys = self.system_data();
        let ghost first = r@;
        let ghost sysv = sys@;
        r.append(&mut sys);
        assert(r@ == first + sysv);
        assert(r@.map_values(|s: String| s@) =~= seq![self.app_data@, self.cache@, self.logs@]
            + sysv.map_values(|s: String| s@));
        r
    }
}

/// What an uninstall would remove, and whether it is possible here: only a
/// packaged application on a platform that supports it can uninstall itself.
pub fn uninstall_info(
    app_path: Option<String>,
    app_bytes: u64,
    usage: StorageUsage,
    system_data_bytes: u64,
    mounted_volumes: Vec<String>,
    platform_supported: bool,
) -> (r: UninstallInfo)
    ensures
        r.supported == (platform_supported && app_path is Some),
        r.app_path == app_path,
        r.app_bytes == app_bytes,
        r.cache_bytes == usage.cache_bytes,
        r.app_data_bytes == usage.app_data_bytes,
        r.log_bytes == usage.log_bytes,
        r.system_data_bytes == system_data_bytes,
        r.total_bytes == saturating_add(saturating_add(app_bytes, usage.total_bytes), system_data_bytes),
        r.mounted_volumes@ == mounted_volumes@,
{
    let supported = platform_supported && app_path.is_some();
    UninstallInfo {
        supported,
        app_path,
        app_bytes,
        cache_bytes: usage.cache_bytes,
        app_data_bytes: usage.app_data_bytes,
        log_bytes: usage.log_bytes,
        system_data_bytes,
        total_bytes: app_bytes.saturating_add(usage.total_bytes).saturating_add(system_data_bytes),
        mounted_volumes,
    }
}

/// Where application bundles cannot be located, there is none.
pub fn current_app_bundle() -> (r: Result<Option<String>, CoreError>)
    ensures
        r matches Ok(None),
{
    Ok(None)
}

/// Where disk images cannot be inspected, none is mounted.
pub fn mounted_product_volumes() -> (r: Result<Vec<String>, CoreError>)
    ensures
        r matches Ok(v) && v@.len() == 0,
{
    Ok(Vec::new())
}

/// Uninstalling is refused where it is not supported.
pub fn begin_uninstall(_paths: &MaintenancePaths) -> (r: Result<(), CoreError>)
    ensures
        r matches Err(CoreError::Other(m)) && m@ == "application uninstall is only supported on macOS"@,
{
    Err(CoreError::other("application uninstall is only supported on macOS"))
}

/// Unicode `White_Space`, as `str::trim` removes it.
pub open spec fn is_white_space(c: char) -> bool {
    let u = c as u32;
    (0x09 <= u <= 0x0D) || u == 0x20 || u == 0x85 || u == 0xA0 || u == 0x1680 || (0x2000 <= u
        <= 0x200A) || u == 0x2028 || u == 0x2029 || u == 0x202F || u == 0x205F || u == 0x3000
}

pub open spec fn trim_start(s: Seq<char>) -> Seq<char>
    decreases s.len(),
{
    if s.len() > 0 && is_white_space(s[0]) {
        trim_start(s.drop_first())
    } else {
        s
    }
}

pub open spec fn trim_end(s: Seq<char>) -> Seq<char>
    decreases s.len(),
{
    if s.len() > 0 && is_white_space(s.last()) {
        trim_end(s.drop_last())
    } else {
        s
    }
}

pub open spec fn trim(s: Seq<char>) -> Seq<char> {
    trim_end(trim_start(s))
}

/// The text split at each line feed.
pub open spec fn split_lines(s: Seq<char>) -> Seq<Seq<char>>
    decreases s.len(),
{
    if s.len() == 0 {
        seq![seq![]]
    } else {
        let p = split_lines(s.drop_last());
        if s.last() == '\n' {
            p.push(seq![])
        } else {
            p.update(p.len() - 1, p.last().push(s.last()))
        }
    }
}

/// First index at or after `j` where `pat` occurs in `s`.
pub open spec fn find_from(s: Seq<char>, pat: Seq<char>, j: nat) -> Option<nat>
    decreases s.len() - j,
{
    if j + pat.len() > s.len() {
        None
    } else if s.subrange(j as int, (j + pat.len()) as int) == pat {
        Some(j)
    } else if j >= s.len() {
        None
    } else {
        find_from(s, pat, j + 1)
    }
}

pub proof fn lemma_find_from_bound(s: Seq<char>, pat: Seq<char>, j: nat)
    ensures
        find_from(s, pat, j) matches Some(i) ==> i + pat.len() <= s.len(),
    decreases s.len() - j,
{
    if j + pat.len() <= s.len() && s.subrange(j as int, (j + pat.len()) as int) != pat && j < s.len() {
        lemma_find_from_bound(s, pat, j + 1);
    }
}

pub open spec fn volumes_marker() -> Seq<char> {
    "/Volumes/"@
}

/// The mount point a line of `hdiutil info` names: from the first
/// `/Volumes/` on, trimmed.
pub open spec fn mount_point_of(line: Seq<char>) -> Option<Seq<char>> {
    match find_from(line, volumes_marker(), 0) {
        Some(i) => Some(trim(line.skip(i as int))),
        None => None,
    }
}

pub open spec fn names_mount_point(output: Seq<char>, m: Seq<char>) -> bool {
    exists|k: int| 0 <= k < split_lines(output).len() && #[trigger] mount_point_of(split_lines(output)[k])
        == Some(m)
}

/// Line `j` of `lines` names a mount point that is the same path as `m`.
pub open spec fn names_path_at(lines: Seq<Seq<char>>, j: int, m: Seq<char>) -> bool {
    match mount_point_of(lines[j]) {
        Some(x) => same_path(x, m),
        None => false,
    }
}

/// A line before line `k` names the same path as `m`.
pub open spec fn named_before(lines: Seq<Seq<char>>, k: int, m: Seq<char>) -> bool {
    exists|j: int| 0 <= j < k && #[trigger] names_path_at(lines, j, m)
}

/// Among the first `n` lines, `m` is the first spelling of its path: a line
/// names `m`, and no line before it names the same path.
pub open spec fn first_of_path(lines: Seq<Seq<char>>, n: int, m: Seq<char>) -> bool {
    exists|k: int| 0 <= k < n && #[trigger] mount_point_of(lines[k]) == Some(m) && !named_before(lines, k, m)
}

/// Paths in strictly increasing order, so no path twice.
pub open spec fn strictly_path_sorted(s: Seq<Seq<char>>) -> bool {
    forall|i: int, j: int| 0 <= i < j < s.len() ==> path_lt(s[i], s[j])
}

/// Where a line before `n` names the path of `m`, the first such line names
/// the first spelling of that path.
proof fn lemma_first_spelling(lines: Seq<Seq<char>>, n: int, m: Seq<char>)
    requires
        0 <= n <= lines.len(),
        named_before(lines, n, m),
    ensures
        exists|x: Seq<char>| same_path(x, m) && #[trigger] first_of_path(lines, n, x),
    decreases n,
{
    if named_before(lines, n - 1, m) {
        lemma_first_spelling(lines, n - 1, m);
        let x = choose|x: Seq<char>| same_path(x, m) && #[trigger] first_of_path(lines, n - 1, x);
        let k = choose|k: int| 0 <= k < n - 1 && #[trigger] mount_point_of(lines[k]) == Some(x) && !named_before(
            lines,
            k,
            x,
        );
        assert(first_of_path(lines, n, x));
    } else {
        let j = choose|j: int| 0 <= j < n && #[trigger] names_path_at(lines, j, m);
        if j < n - 1 {
            assert(named_before(lines, n - 1, m));
        }
        let x = mount_point_of(lines[n - 1])->Some_0;
        assert(same_path(x, m));
        if named_before(lines, n - 1, x) {
            let i = choose|i: int| 0 <= i < n - 1 && #[trigger] names_path_at(lines, i, x);
            assert(names_path_at(lines, i, m));
        }
        assert(first_of_path(lines, n, x));
    }
}

fn trimmed(s: &Vec<char>, from: usize) -> (r: Vec<char>)
    requires
        from <= s.len(),
    ensures
        r@ == trim(s@.skip(from as int)),
{
    let mut a: usize = from;
    assert(s@.skip(from as int).subrange(0, s.len() - from) =~= s@.skip(from as int));
    while a < s.len() && is_ws(s[a])
        invariant
            from <= a <= s.len(),
            trim_start(s@.skip(from as int)) == trim_start(s@.skip(a as int)),
        decreases s.len() - a,
    {
        assert(s@.skip(a as int).drop_first() =~= s@.skip(a + 1));
        a = a + 1;
    }
    assert(trim_start(s@.skip(a as int)) == s@.skip(a as int));
    let mut b: usize = s.len();
    assert(s@.skip(a as int) =~= s@.subrange(a as int, b as int));
    while b > a && is_ws(s[b - 1])
        invariant
            a <= b <= s.len(),
            trim_end(s@.skip(a as int)) == trim_end(s@.subrange(a as int, b as int)),
        decreases b - a,
    {
        assert(s@.subrange(a as int, b as int).drop_last() =~= s@.subrange(a as int, b - 1));
        b = b - 1;
    }
    let mut r: Vec<char> = Vec::new();
    let mut k: usize = a;
    while k < b
        invariant
            a <= k <= b,
            b <= s.len(),
            r@ == s@.subrange(a as int, k as int),
        decreases b - k,
    {
        r.push(s[k]);
        assert(s@.subrange(a as int, k + 1) =~= s@.subrange(a as int, k as int).push(s@[k as int]));
        k = k + 1;
    }
    r
}

fn is_ws(c: char) -> (r: bool)
    ensures
        r == is_white_space(c),
{
    let u = c as u32;
    (0x09 <= u && u <= 0x0D) || u == 0x20 || u == 0x85 || u == 0xA0 || u == 0x1680 || (0x2000 <= u
        && u <= 0x200A) || u == 0x2028 || u == 0x2029 || u == 0x202F || u == 0x205F || u == 0x3000
}

fn find_marker(s: &Vec<char>, pat: &Vec<char>) -> (r: Option<usize>)
    ensures
        match r {
            Some(i) => find_from(s@, pat@, 0) == Some(i as nat),
            None => find_from(s@, pat@, 0) is None,
        },
{
    let mut j: usize = 0;
    while j <= s.len() && pat.len() <= s.len() - j
        invariant
            find_from(s@, pat@, 0) == find_from(s@, pat@, j as nat),
        decreases s.len() + 1 - j,
    {
        let mut k: usize = 0;
        let mut same = true;
        while k < pat.len()
            invariant
                0 <= k <= pat.len(),
                j + pat.len() <= s.len(),
                same == (forall|m: int| 0 <= m < k ==> s@[j + m] == pat@[m]),
            decreases pat.len() - k,
        {
            if s[j + k] != pat[k] {
                same = false;
            }
            k = k + 1;
        }
        if same {
            assert(s@.subrange(j as int, j + pat.len()) =~= pat@);
            return Some(j);
        }
        assert(s@.subrange(j as int, j + pat.len()) != pat@) by {
            let m = choose|m: int| 0 <= m < pat.len() && s@[j + m] != pat@[m];
            assert(s@.subrange(j as int, j + pat.len())[m] == s@[j + m]);
        }
        if j == s.len() {
            return None;
        }
        j = j + 1;
    }
    None
}

pub open spec fn views(s: Seq<Vec<char>>) -> Seq<Seq<char>> {
    s.map_values(|v: Vec<char>| v@)
}

/// Adds `m` to a list of paths in increasing order, unless the list holds
/// the same path already.
fn insert_path(found: &mut Vec<Vec<char>>, m: Vec<char>)
    requires
        strictly_path_sorted(views(old(found)@)),
    ensures
        strictly_path_sorted(views(final(found)@)),
        (exists|i: int| 0 <= i < old(found)@.len() && same_path(#[trigger] old(found)@[i]@, m@)) ==> views(
            final(found)@,
        ) == views(old(found)@),
        !(exists|i: int| 0 <= i < old(found)@.len() && same_path(#[trigger] old(found)@[i]@, m@))
            ==> forall|x: Seq<char>| views(final(found)@).contains(x) <==> (views(old(found)@).contains(x) || x
            == m@),
{
    let mut p: usize = 0;
    loop
        invariant
            0 <= p <= found.len(),
            found@ == old(found)@,
            forall|k: int| 0 <= k < p ==> path_lt(#[trigger] found@[k]@, m@),
        ensures
            0 <= p <= found.len(),
            found@ == old(found)@,
            forall|k: int| 0 <= k < p ==> path_lt(#[trigger] found@[k]@, m@),
            p < found.len() ==> !path_lt(found@[p as int]@, m@),
        decreases found.len() - p,
    {
        if p >= found.len() {
            break;
        }
        if !path_less(&found[p], &m) {
            break;
        }
        p = p + 1;
    }
    let ghost before = views(found@);
    proof {
        assert forall|k: int| 0 <= k < p implies !same_path(#[trigger] before[k], m@) by {
            lemma_parts_lt_order(path_parts(before[k]), path_parts(m@), path_parts(m@));
        }
        if p < found.len() && !same_path(before[p as int], m@) {
            lemma_parts_lt_order(path_parts(before[p as int]), path_parts(m@), path_parts(m@));
            assert(path_lt(m@, before[p as int]));
            assert forall|k: int| p <= k < before.len() implies path_lt(m@, before[k]) && !same_path(
                #[trigger] before[k],
                m@,
            ) by {
                if k > p {
                    assert(path_lt(before[p as int], before[k]));
                    lemma_parts_lt_order(path_parts(m@), path_parts(before[p as int]), path_parts(before[k]));
                }
                lemma_parts_lt_order(path_parts(m@), path_parts(before[k]), path_parts(m@));
            }
        }
    }
    if p < found.len() && same_path_of(&found[p], &m) {
        return;
    }
    proof {
        assert(!(exists|i: int| 0 <= i < old(found)@.len() && same_path(#[trigger] old(found)@[i]@, m@))) by {
            if exists|i: int| 0 <= i < old(found)@.len() && same_path(#[trigger] old(found)@[i]@, m@) {
                let i = choose|i: int| 0 <= i < old(found)@.len() && same_path(#[trigger] old(found)@[i]@, m@);
                assert(before[i] == old(found)@[i]@);
            }
        }
    }
    let ghost mv = m@;
    found.insert(p, m);
    proof {
        let after = views(found@);
        assert(after =~= before.insert(p as int, mv));
        assert forall|a: int, b: int| 0 <= a < b < after.len() implies path_lt(after[a], after[b]) by {
            if a < p && b < p {
            } else if a < p && b == p {
            } else if a < p && b > p {
                assert(after[a] == before[a] && after[b] == before[b - 1]);
                lemma_parts_lt_order(path_parts(before[a]), path_parts(mv), path_parts(before[b - 1]));
            } else if a == p {
                assert(after[b] == before[b - 1]);
            } else {
                assert(after[a] == before[a - 1] && after[b] == before[b - 1]);
            }
        }
        assert forall|x: Seq<char>| after.contains(x) <==> (before.contains(x) || x == mv) by {
            if after.contains(x) {
                let w = choose|w: int| 0 <= w < after.len() && after[w] == x;
                if w < p {
                    assert(before[w] == x);
                } else if w > p {
                    assert(before[w - 1] == x);
                }
            }
            if before.contains(x) {
                let w = choose|w: int| 0 <= w < before.len() && before[w] == x;
                if w < p {
                    assert(after[w] == x);
                } else {
                    assert(after[w + 1] == x);
                }
            }
            if x == mv {
                assert(after[p as int] == x);
            }
        }
    }
}

proof fn lemma_first_of_path_step(lines: Seq<Seq<char>>, n: int, x: Seq<char>)
    requires
        0 <= n < lines.len(),
    ensures
        first_of_path(lines, n + 1, x) <==> (first_of_path(lines, n, x) || (mount_point_of(lines[n]) == Some(x)
            && !named_before(lines, n, x))),
{
    if first_of_path(lines, n + 1, x) {
        let k = choose|k: int| 0 <= k < n + 1 && #[trigger] mount_point_of(lines[k]) == Some(x) && !named_before(
            lines,
            k,
            x,
        );
        if k < n {
            assert(first_of_path(lines, n, x));
        }
    }
    if first_of_path(lines, n, x) {
        let k = choose|k: int| 0 <= k < n && #[trigger] mount_point_of(lines[k]) == Some(x) && !named_before(
            lines,
            k,
            x,
        );
        assert(first_of_path(lines, n + 1, x));
    }
    if mount_point_of(lines[n]) == Some(x) && !named_before(lines, n, x) {
        assert(first_of_path(lines, n + 1, x));
    }
}

proof fn lemma_first_of_path_prefix(a: Seq<Seq<char>>, b: Seq<Seq<char>>, n: int, x: Seq<char>)
    requires
        0 <= n <= a.len(),
        n <= b.len(),
        forall|j: int| 0 <= j < n ==> a[j] == b[j],
    ensures
        first_of_path(a, n, x) == first_of_path(b, n, x),
{
    assert forall|k: int| 0 <= k < n implies named_before(a, k, x) == named_before(b, k, x) by {
        assert forall|j: int| 0 <= j < k implies names_path_at(a, j, x) == names_path_at(b, j, x) by {
            assert(a[j] == b[j]);
        }
        if named_before(a, k, x) {
            let j = choose|j: int| 0 <= j < k && #[trigger] names_path_at(a, j, x);
            assert(names_path_at(b, j, x));
        }
        if named_before(b, k, x) {
            let j = choose|j: int| 0 <= j < k && #[trigger] names_path_at(b, j, x);
            assert(names_path_at(a, j, x));
        }
    }
    if first_of_path(a, n, x) {
        let k = choose|k: int| 0 <= k < n && #[trigger] mount_point_of(a[k]) == Some(x) && !named_before(a, k, x);
        assert(a[k] == b[k]);
        assert(first_of_path(b, n, x));
    }
    if first_of_path(b, n, x) {
        let k = choose|k: int| 0 <= k < n && #[trigger] mount_point_of(b[k]) == Some(x) && !named_before(b, k, x);
        assert(a[k] == b[k]);
        assert(first_of_path(a, n, x));
    }
}

/// A list holding exactly the first spellings among the first `n` lines
/// holds the path of `m` exactly when a line before `n` names it.
proof fn lemma_listed_iff_named(lines: Seq<Seq<char>>, n: int, found: Seq<Seq<char>>, m: Seq<char>)
    requires
        0 <= n <= lines.len(),
        forall|x: Seq<char>| found.contains(x) <==> first_of_path(lines, n, x),
    ensures
        (exists|i: int| 0 <= i < found.len() && same_path(#[trigger] found[i], m)) <==> named_before(lines, n, m),
{
    if exists|i: int| 0 <= i < found.len() && same_path(#[trigger] found[i], m) {
        let i = choose|i: int| 0 <= i < found.len() && same_path(#[trigger] found[i], m);
        assert(found.contains(found[i]));
        let k = choose|k: int| 0 <= k < n && #[trigger] mount_point_of(lines[k]) == Some(found[i]) && !named_before(
            lines,
            k,
            found[i],
        );
        assert(names_path_at(lines, k, m));
    }
    if named_before(lines, n, m) {
        lemma_first_spelling(lines, n, m);
        let x = choose|x: Seq<char>| same_path(x, m) && #[trigger] first_of_path(lines, n, x);
        assert(found.contains(x));
        let i = choose|i: int| 0 <= i < found.len() && found[i] == x;
        assert(same_path(found[i], m));
    }
}

/// Reads one completed line into the list of first spellings.
fn take_line(found: &mut Vec<Vec<char>>, line: &Vec<char>, marker: &Vec<char>, Ghost(lines): Ghost<
    Seq<Seq<char>>,
>, Ghost(n): Ghost<int>)
    requires
        0 <= n < lines.len(),
        lines[n] == line@,
        marker@ == volumes_marker(),
        strictly_path_sorted(views(old(found)@)),
        forall|x: Seq<char>| views(old(found)@).contains(x) <==> first_of_path(lines, n, x),
    ensures
        strictly_path_sorted(views(final(found)@)),
        forall|x: Seq<char>| views(final(found)@).contains(x) <==> first_of_path(lines, n + 1, x),
{
    let ghost before = views(found@);
    proof {
        lemma_find_from_bound(line@, volumes_marker(), 0);
    }
    match find_marker(line, marker) {
        Some(at) => {
            let m = trimmed(line, at);
            assert(mount_point_of(line@) == Some(m@));
            proof {
                lemma_listed_iff_named(lines, n, before, m@);
                assert forall|i: int| 0 <= i < found@.len() implies #[trigger] found@[i]@ == before[i] by {}
            }
            let ghost mv = m@;
            insert_path(found, m);
            proof {
                assert forall|x: Seq<char>| views(found@).contains(x) <==> first_of_path(lines, n + 1, x) by {
                    lemma_first_of_path_step(lines, n, x);
                    if x == mv && named_before(lines, n, x) {
                        let i = choose|i: int| 0 <= i < before.len() && same_path(#[trigger] before[i], mv);
                        assert(same_path(old(found)@[i]@, mv));
                    }
                }
            }
        },
        None => {
            assert(mount_point_of(line@) is None);
            proof {
                assert forall|x: Seq<char>| views(found@).contains(x) <==> first_of_path(lines, n + 1, x) by {
                    lemma_first_of_path_step(lines, n, x);
                }
            }
        },
    }
}

/// The mount points named in `hdiutil info` output, ordered as paths and
/// each path once, spelt as on the first line that names it.
pub fn mount_points_from_hdiutil(output: &str) -> (r: Vec<String>)
    ensures
        strictly_path_sorted(r@.map_values(|s: String| s@)),
        forall|m: Seq<char>| r@.map_values(|s: String| s@).contains(m) <==> first_of_path(
            split_lines(output@),
            split_lines(output@).len() as int,
            m,
        ),
        forall|m: Seq<char>| #[trigger] names_mount_point(output@, m) ==> exists|i: int| 0 <= i < r@.len()
            && same_path(#[trigger] r@[i]@, m),
{
    let cs = chars_of(output);
    let marker = chars_of("/Volumes/");
    let mut found: Vec<Vec<char>> = Vec::new();
    let mut line: Vec<char> = Vec::new();
    let mut i: usize = 0;
    assert(cs@.take(0) =~= Seq::<char>::empty());
    assert(views(found@) =~= Seq::<Seq<char>>::empty());
    while i < cs.len()
        invariant
            0 <= i <= cs.len(),
            cs@ == output@,
            marker@ == volumes_marker(),
            split_lines(cs@.take(i as int)).len() >= 1,
            line@ == split_lines(cs@.take(i as int)).last(),
            strictly_path_sorted(views(found@)),
            forall|x: Seq<char>| views(found@).contains(x) <==> first_of_path(
                split_lines(cs@.take(i as int)),
                split_lines(cs@.take(i as int)).len() - 1,
                x,
            ),
        decreases cs.len() - i,
    {
        let ghost old_lines = split_lines(cs@.take(i as int));
        let ghost n = old_lines.len() - 1;
        assert(cs@.take(i + 1).drop_last() =~= cs@.take(i as int));
        assert(cs@.take(i + 1).last() == cs@[i as int]);
        let c = cs[i];
        if c == '\n' {
            take_line(&mut found, &line, &marker, Ghost(old_lines), Ghost(n));
            line = Vec::new();
            proof {
                let new_lines = split_lines(cs@.take(i + 1));
                assert(new_lines == old_lines.push(seq![]));
                assert forall|x: Seq<char>| views(found@).contains(x) <==> first_of_path(new_lines, n + 1, x) by {
                    lemma_first_of_path_prefix(old_lines, new_lines, n + 1, x);
                }
            }
        } else {
            line.push(c);
            proof {
                let new_lines = split_lines(cs@.take(i + 1));
                assert(new_lines == old_lines.update(old_lines.len() - 1, old_lines.last().push(c)));
                assert forall|x: Seq<char>| views(found@).contains(x) <==> first_of_path(new_lines, n, x) by {
                    lemma_first_of_path_prefix(old_lines, new_lines, n, x);
                }
            }
        }
        i = i + 1;
    }
    assert(cs@.take(cs.len() as int) =~= cs@);
    let ghost lines = split_lines(output@);
    take_line(&mut found, &line, &marker, Ghost(lines), Ghost(lines.len() - 1));
    let mut r: Vec<String> = Vec::new();
    let mut k: usize = 0;
    while k < found.len()
        invariant
            0 <= k <= found.len(),
            r@.map_values(|s: String| s@) == views(found@).take(k as int),
        decreases found.len() - k,
    {
        r.push(string_from_chars(&found[k]));
        assert(views(found@).take(k + 1) =~= views(found@).take(k as int).push(found@[k as int]@));
        assert(r@.map_values(|s: String| s@) =~= views(found@).take(k as int).push(found@[k as int]@));
        k = k + 1;
    }
    assert(views(found@).take(found.len() as int) =~= views(found@));
    proof {
        assert forall|m: Seq<char>| #[trigger] names_mount_point(output@, m) implies exists|i: int| 0 <= i
            < r@.len() && same_path(#[trigger] r@[i]@, m) by {
            let k = choose|k: int| 0 <= k < lines.len() && #[trigger] mount_point_of(lines[k]) == Some(m);
            assert(names_path_at(lines, k, m));
            lemma_listed_iff_named(lines, lines.len() as int, views(found@), m);
            let i = choose|i: int| 0 <= i < views(found@).len() && same_path(#[trigger] views(found@)[i], m);
            assert(r@[i]@ == views(found@)[i]);
        }
    }
    r
}

} // verus!
