//! Unix path text, read as the standard library's `Path` reads it: its
//! components (the texts between `/`s, without empty ones and `.`), their
//! order, the file name, stem and extension, the parent, joining, and
//! replacing the file name. Also the last `/`-separated segment of a text,
//! as URL paths are read.
use vstd::prelude::*;

use crate::text::{
    chars_equal, chars_less, chars_lt, chars_of, decimal, lemma_chars_lt_irreflexive,
    lemma_chars_lt_total, lemma_chars_lt_transitive, push_chars, push_decimal, push_str,
    string_from_chars,
};

verus! {

/// Index just past the last `/` of `s` (0 when there is none).
pub open spec fn name_start(s: Seq<char>) -> int
    decreases s.len(),
{
    if s.len() == 0 {
        0
    } else if s.last() == '/' {
        s.len() as int
    } else {
        name_start(s.drop_last())
    }
}

/// The text after the last `/`.
pub open spec fn last_segment_of(s: Seq<char>) -> Seq<char> {
    s.skip(name_start(s))
}

/// Index of the last `.` of `s`, if any.
pub open spec fn last_dot(s: Seq<char>) -> Option<int>
    decreases s.len(),
{
    if s.len() == 0 {
        None
    } else if s.last() == '.' {
        Some(s.len() - 1)
    } else {
        last_dot(s.drop_last())
    }
}

/// The stem of a file name: the text before its last `.`, unless that dot
/// begins the name; the whole name when there is no such dot.
pub open spec fn stem_of(name: Seq<char>) -> Seq<char> {
    match last_dot(name) {
        Some(i) => if i == 0 { name } else { name.take(i) },
        None => name,
    }
}

/// The extension of a file name: the text after its last `.`, unless that
/// dot begins the name.
pub open spec fn extension_of(name: Seq<char>) -> Option<Seq<char>> {
    match last_dot(name) {
        Some(i) => if i == 0 { None } else { Some(name.skip(i + 1)) },
        None => None,
    }
}

/// `base` followed by `part`: an absolute `part` replaces `base`, and a `/`
/// separates the two unless `base` is empty or already ends with one.
pub open spec fn joined(base: Seq<char>, part: Seq<char>) -> Seq<char> {
    if part.len() > 0 && part[0] == '/' {
        part
    } else if base.len() > 0 && base.last() != '/' {
        base + seq!['/'] + part
    } else {
        base + part
    }
}

pub proof fn lemma_name_start_bounds(s: Seq<char>)
    ensures
        0 <= name_start(s) <= s.len(),
        forall|k: int| name_start(s) <= k < s.len() ==> s[k] != '/',
        name_start(s) > 0 ==> s[name_start(s) - 1] == '/',
    decreases s.len(),
{
    if s.len() > 0 && s.last() != '/' {
        lemma_name_start_bounds(s.drop_last());
        assert forall|k: int| name_start(s) <= k < s.len() implies s[k] != '/' by {
            if k < s.len() - 1 {
                assert(s.drop_last()[k] == s[k]);
            }
        }
        if name_start(s) > 0 {
            assert(s.drop_last()[name_start(s) - 1] == s[name_start(s) - 1]);
        }
    }
}

pub proof fn lemma_last_dot_bounds(s: Seq<char>)
    ensures
        last_dot(s) matches Some(i) ==> 0 <= i < s.len() && s[i] == '.' && forall|k: int| i < k < s.len()
            ==> s[k] != '.',
        last_dot(s) is None ==> forall|k: int| 0 <= k < s.len() ==> s[k] != '.',
    decreases s.len(),
{
    if s.len() > 0 {
        if s.last() != '.' {
            lemma_last_dot_bounds(s.drop_last());
            assert forall|k: int| 0 <= k < s.len() - 1 implies s[k] == s.drop_last()[k] by {}
        }
    }
}

/// A name ending in `.bin` has its last dot just before `bin`.
pub proof fn lemma_last_dot_of_bin(stem: Seq<char>)
    ensures
        last_dot(stem + ".bin"@) == Some(stem.len() as int),
{
    reveal_strlit(".bin");
    let s = stem + ".bin"@;
    let s1 = s.drop_last();
    let s2 = s1.drop_last();
    let s3 = s2.drop_last();
    assert(s.last() == 'n');
    assert(s1.last() == 'i');
    assert(s2.last() == 'b');
    assert(s3.last() == '.');
    assert(s3.len() == stem.len() + 1);
    assert(last_dot(s3) == Some(stem.len() as int));
    assert(last_dot(s2) == last_dot(s3));
    assert(last_dot(s1) == last_dot(s2));
    assert(last_dot(s) == last_dot(s1));
}

fn find_name_start(cs: &Vec<char>) -> (r: usize)
    ensures
        r == name_start(cs@),
{
    let mut i: usize = cs.len();
    assert(cs@.take(cs.len() as int) =~= cs@);
    while i > 0 && cs[i - 1] != '/'
        invariant
            0 <= i <= cs.len(),
            name_start(cs@) == name_start(cs@.take(i as int)),
        decreases i,
    {
        assert(cs@.take(i as int).drop_last() =~= cs@.take(i - 1));
        i = i - 1;
    }
    proof {
        if i > 0 {
            assert(cs@.take(i as int).last() == '/');
        }
        assert(cs@.take(cs.len() as int) =~= cs@);
    }
    i
}

fn find_last_dot(cs: &Vec<char>) -> (r: Option<usize>)
    ensures
        match r {
            Some(i) => last_dot(cs@) == Some(i as int),
            None => last_dot(cs@) is None,
        },
{
    let mut i: usize = cs.len();
    assert(cs@.take(cs.len() as int) =~= cs@);
    while i > 0
        invariant
            0 <= i <= cs.len(),
            last_dot(cs@) == last_dot(cs@.take(i as int)),
        decreases i,
    {
        if cs[i - 1] == '.' {
            return Some(i - 1);
        }
        assert(cs@.take(i as int).drop_last() =~= cs@.take(i - 1));
        i = i - 1;
    }
    None
}

fn slice_chars(cs: &Vec<char>, from: usize, to: usize) -> (r: Vec<char>)
    requires
        from <= to <= cs.len(),
    ensures
        r@ == cs@.subrange(from as int, to as int),
{
    let mut r: Vec<char> = Vec::new();
    let mut k: usize = from;
    while k < to
        invariant
            from <= k <= to,
            to <= cs.len(),
            r@ == cs@.subrange(from as int, k as int),
        decreases to - k,
    {
        r.push(cs[k]);
        assert(cs@.subrange(from as int, k + 1) =~= cs@.subrange(from as int, k as int).push(cs@[k as int]));
        k = k + 1;
    }
    r
}

/// `base` joined with `part`.
pub fn join_path(base: &str, part: &str) -> (r: String)
    ensures
        r@ == joined(base@, part@),
{
    let b = chars_of(base);
    let p = chars_of(part);
    let mut out: Vec<char> = Vec::new();
    if p.len() > 0 && p[0] == '/' {
        push_chars(&mut out, &p);
    } else {
        push_chars(&mut out, &b);
        if b.len() > 0 && b[b.len() - 1] != '/' {
            out.push('/');
        }
        push_chars(&mut out, &p);
    }
    string_from_chars(&out)
}

/// The text of `path` after its last `/`.
pub fn last_segment(path: &str) -> (r: String)
    ensures
        r@ == last_segment_of(path@),
{
    let cs = chars_of(path);
    let start = find_name_start(&cs);
    proof {
        lemma_name_start_bounds(cs@);
    }
    let name = slice_chars(&cs, start, cs.len());
    assert(name@ =~= last_segment_of(path@));
    string_from_chars(&name)
}

/// `ps` with the part `cur` added, unless it is empty or `.`.
pub open spec fn keep_part(ps: Seq<Seq<char>>, cur: Seq<char>) -> Seq<Seq<char>> {
    if cur.len() == 0 || cur == "."@ {
        ps
    } else {
        ps.push(cur)
    }
}

/// The parts of `s` completed so far, and the part still being read.
pub open spec fn scan_parts(s: Seq<char>) -> (Seq<Seq<char>>, Seq<char>)
    decreases s.len(),
{
    if s.len() == 0 {
        (seq![], seq![])
    } else {
        let (ps, cur) = scan_parts(s.drop_last());
        if s.last() == '/' {
            (keep_part(ps, cur), seq![])
        } else {
            (ps, cur.push(s.last()))
        }
    }
}

/// The components of an absolute path after its root, as the standard
/// library's `Path::components` reads them: the texts between `/`s, leaving
/// out empty ones and `.`.
pub open spec fn path_parts(s: Seq<char>) -> Seq<Seq<char>> {
    keep_part(scan_parts(s).0, scan_parts(s).1)
}

/// The order of components: `..` (the parent directory) before any name,
/// names by code point.
pub open spec fn part_lt(a: Seq<char>, b: Seq<char>) -> bool {
    if a == ".."@ {
        b != ".."@
    } else if b == ".."@ {
        false
    } else {
        chars_lt(a, b)
    }
}

/// Lexicographic order of component lists.
pub open spec fn parts_lt(a: Seq<Seq<char>>, b: Seq<Seq<char>>) -> bool
    decreases a.len(),
{
    if a.len() == 0 {
        b.len() > 0
    } else if b.len() == 0 {
        false
    } else if a[0] == b[0] {
        parts_lt(a.drop_first(), b.drop_first())
    } else {
        part_lt(a[0], b[0])
    }
}

/// Paths ordered as the standard library orders them: component by component.
pub open spec fn path_lt(a: Seq<char>, b: Seq<char>) -> bool {
    parts_lt(path_parts(a), path_parts(b))
}

/// Paths the standard library holds equal: the same components.
pub open spec fn same_path(a: Seq<char>, b: Seq<char>) -> bool {
    path_parts(a) == path_parts(b)
}

pub proof fn lemma_part_lt_order(a: Seq<char>, b: Seq<char>, c: Seq<char>)
    ensures
        !part_lt(a, a),
        part_lt(a, b) || part_lt(b, a) || a == b,
        part_lt(a, b) && part_lt(b, c) ==> part_lt(a, c),
{
    lemma_chars_lt_irreflexive(a);
    lemma_chars_lt_total(a, b);
    if chars_lt(a, b) && chars_lt(b, c) {
        lemma_chars_lt_transitive(a, b, c);
    }
}

/// `parts_lt` is a strict total order.
pub proof fn lemma_parts_lt_order(a: Seq<Seq<char>>, b: Seq<Seq<char>>, c: Seq<Seq<char>>)
    ensures
        !parts_lt(a, a),
        parts_lt(a, b) || parts_lt(b, a) || a == b,
        parts_lt(a, b) && parts_lt(b, c) ==> parts_lt(a, c),
    decreases a.len(),
{
    if a.len() > 0 {
        lemma_part_lt_order(a[0], a[0], a[0]);
        if b.len() > 0 {
            lemma_part_lt_order(a[0], b[0], a[0]);
            if c.len() > 0 {
                lemma_part_lt_order(a[0], b[0], c[0]);
                lemma_part_lt_order(b[0], c[0], a[0]);
                lemma_part_lt_order(c[0], a[0], b[0]);
                lemma_part_lt_order(a[0], c[0], b[0]);
            }
            lemma_parts_lt_order(a.drop_first(), b.drop_first(), c.drop_first());
            if a[0] == b[0] && a.drop_first() == b.drop_first() {
                assert(a.len() == b.len());
                assert forall|k: int| 0 <= k < a.len() implies a[k] == b[k] by {
                    if k > 0 {
                        assert(a[k] == a.drop_first()[k - 1]);
                        assert(b[k] == b.drop_first()[k - 1]);
                    }
                }
                assert(a =~= b);
            }
        } else {
            lemma_parts_lt_order(a.drop_first(), a.drop_first(), a.drop_first());
        }
    } else {
        if b.len() == 0 {
            assert(a =~= b);
        }
    }
}

fn keep_part_vec(ps: &mut Vec<Vec<char>>, cur: Vec<char>)
    ensures
        final(ps)@.map_values(|v: Vec<char>| v@) == keep_part(old(ps)@.map_values(|v: Vec<char>| v@), cur@),
{
    proof {
        reveal_strlit(".");
    }
    let dot = chars_of(".");
    if cur.len() == 0 || chars_equal(&cur, &dot) {
        return;
    }
    let ghost before = ps@;
    ps.push(cur);
    assert(ps@.map_values(|v: Vec<char>| v@) =~= before.map_values(|v: Vec<char>| v@).push(cur@));
}

/// The components of `s` (see `path_parts`).
pub fn path_parts_of(s: &Vec<char>) -> (r: Vec<Vec<char>>)
    ensures
        r@.map_values(|v: Vec<char>| v@) == path_parts(s@),
{
    let mut ps: Vec<Vec<char>> = Vec::new();
    let mut cur: Vec<char> = Vec::new();
    let mut i: usize = 0;
    assert(s@.take(0) =~= Seq::<char>::empty());
    assert(ps@.map_values(|v: Vec<char>| v@) =~= Seq::<Seq<char>>::empty());
    while i < s.len()
        invariant
            0 <= i <= s.len(),
            (ps@.map_values(|v: Vec<char>| v@), cur@) == scan_parts(s@.take(i as int)),
        decreases s.len() - i,
    {
        assert(s@.take(i + 1).drop_last() =~= s@.take(i as int));
        assert(s@.take(i + 1).last() == s@[i as int]);
        if s[i] == '/' {
            let done = cur;
            keep_part_vec(&mut ps, done);
            cur = Vec::new();
            assert(cur@ =~= Seq::<char>::empty());
        } else {
            cur.push(s[i]);
        }
        i = i + 1;
    }
    assert(s@.take(s.len() as int) =~= s@);
    keep_part_vec(&mut ps, cur);
    ps
}

fn part_less(a: &Vec<char>, b: &Vec<char>) -> (r: bool)
    ensures
        r == part_lt(a@, b@),
{
    proof {
        reveal_strlit("..");
    }
    let up = chars_of("..");
    let a_up = chars_equal(a, &up);
    let b_up = chars_equal(b, &up);
    if a_up {
        !b_up
    } else if b_up {
        false
    } else {
        chars_less(a, b)
    }
}

/// Whether path `a` sorts before path `b` (see `path_lt`).
pub fn path_less(a: &Vec<char>, b: &Vec<char>) -> (r: bool)
    ensures
        r == path_lt(a@, b@),
{
    let pa = path_parts_of(a);
    let pb = path_parts_of(b);
    let ghost va = pa@.map_values(|v: Vec<char>| v@);
    let ghost vb = pb@.map_values(|v: Vec<char>| v@);
    let mut i: usize = 0;
    assert(va.skip(0) =~= va);
    assert(vb.skip(0) =~= vb);
    while i < pa.len() && i < pb.len()
        invariant
            0 <= i <= pa.len(),
            i <= pb.len(),
            va == pa@.map_values(|v: Vec<char>| v@),
            vb == pb@.map_values(|v: Vec<char>| v@),
            va == path_parts(a@),
            vb == path_parts(b@),
            parts_lt(va, vb) == parts_lt(va.skip(i as int), vb.skip(i as int)),
        decreases pa.len() - i,
    {
        assert(va.skip(i as int)[0] == pa@[i as int]@);
        assert(vb.skip(i as int)[0] == pb@[i as int]@);
        assert(va.skip(i as int).drop_first() =~= va.skip(i + 1));
        assert(vb.skip(i as int).drop_first() =~= vb.skip(i + 1));
        if !chars_equal(&pa[i], &pb[i]) {
            return part_less(&pa[i], &pb[i]);
        }
        i = i + 1;
    }
    i < pb.len()
}

/// Whether paths `a` and `b` have the same components (see `same_path`).
pub fn same_path_of(a: &Vec<char>, b: &Vec<char>) -> (r: bool)
    ensures
        r == same_path(a@, b@),
{
    let pa = path_parts_of(a);
    let pb = path_parts_of(b);
    let ghost va = pa@.map_values(|v: Vec<char>| v@);
    let ghost vb = pb@.map_values(|v: Vec<char>| v@);
    if pa.len() != pb.len() {
        assert(va.len() != vb.len());
        return false;
    }
    let mut i: usize = 0;
    while i < pa.len()
        invariant
            0 <= i <= pa.len(),
            pa.len() == pb.len(),
            va == pa@.map_values(|v: Vec<char>| v@),
            vb == pb@.map_values(|v: Vec<char>| v@),
            va == path_parts(a@),
            vb == path_parts(b@),
            forall|j: int| 0 <= j < i ==> va[j] == vb[j],
        decreases pa.len() - i,
    {
        if !chars_equal(&pa[i], &pb[i]) {
            assert(va[i as int] != vb[i as int]);
            return false;
        }
        i = i + 1;
    }
    assert(va =~= vb);
    true
}

/// Where each component of `path_parts(s)` ends, for the parts completed so far.
pub open spec fn scan_ends(s: Seq<char>) -> Seq<int>
    decreases s.len(),
{
    if s.len() == 0 {
        seq![]
    } else {
        let e = scan_ends(s.drop_last());
        let cur = scan_parts(s.drop_last()).1;
        if s.last() == '/' && !(cur.len() == 0 || cur == "."@) {
            e.push(s.len() - 1)
        } else {
            e
        }
    }
}

/// The index just past each component of `path_parts(s)`.
pub open spec fn path_part_ends(s: Seq<char>) -> Seq<int> {
    let cur = scan_parts(s).1;
    if cur.len() == 0 || cur == "."@ {
        scan_ends(s)
    } else {
        scan_ends(s).push(s.len() as int)
    }
}

proof fn lemma_scan_ends_len(s: Seq<char>)
    ensures
        scan_ends(s).len() == scan_parts(s).0.len(),
    decreases s.len(),
{
    if s.len() > 0 {
        lemma_scan_ends_len(s.drop_last());
    }
}

pub proof fn lemma_part_ends_len(s: Seq<char>)
    ensures
        path_part_ends(s).len() == path_parts(s).len(),
{
    lemma_scan_ends_len(s);
}

proof fn lemma_scan_ends_bound(s: Seq<char>)
    ensures
        forall|k: int| 0 <= k < scan_ends(s).len() ==> 0 <= #[trigger] scan_ends(s)[k] <= s.len(),
    decreases s.len(),
{
    if s.len() > 0 {
        let t = s.drop_last();
        lemma_scan_ends_bound(t);
        let e = scan_ends(t);
        assert forall|k: int| 0 <= k < scan_ends(s).len() implies 0 <= #[trigger] scan_ends(s)[k] <= s.len() by {
            if k < e.len() {
                assert(scan_ends(s)[k] == e[k]);
            }
        }
    }
}

proof fn lemma_parent_len_bound(s: Seq<char>)
    ensures
        0 <= path_parent_len(s) <= s.len(),
{
    lemma_scan_ends_bound(s);
    lemma_part_ends_len(s);
    let ps = path_parts(s);
    if ps.len() >= 2 {
        let k = ps.len() - 2;
        assert(path_part_ends(s)[k] == scan_ends(s)[k]);
    }
}

/// After a `/` (or at the start), the part being read is the text since.
proof fn lemma_scan_after_slash(prefix: Seq<char>, name: Seq<char>)
    requires
        prefix.len() == 0 || prefix.last() == '/',
        forall|k: int| 0 <= k < name.len() ==> name[k] != '/',
    ensures
        scan_parts(prefix + name).1 == name,
    decreases name.len(),
{
    if name.len() == 0 {
        assert(prefix + name =~= prefix);
        if prefix.len() > 0 {
            assert(scan_parts(prefix).1 == Seq::<char>::empty());
        }
    } else {
        assert((prefix + name).drop_last() =~= prefix + name.drop_last());
        assert((prefix + name).last() == name[name.len() - 1]);
        lemma_scan_after_slash(prefix, name.drop_last());
        assert(name.drop_last().push(name.last()) =~= name);
    }
}

/// A plain name joined onto any directory is the file name of the result.
pub proof fn lemma_joined_path_file_name(base: Seq<char>, name: Seq<char>)
    requires
        name.len() > 0,
        name != "."@,
        name != ".."@,
        forall|k: int| 0 <= k < name.len() ==> name[k] != '/',
    ensures
        path_file_name(joined(base, name)) == Some(name),
{
    let prefix = if base.len() > 0 && base.last() != '/' { base + seq!['/'] } else { base };
    assert(joined(base, name) =~= prefix + name);
    lemma_scan_after_slash(prefix, name);
}

/// The file name of a path as the standard library reads it
/// (`Path::file_name`): its last component, unless that is `..` or there is
/// none.
pub open spec fn path_file_name(s: Seq<char>) -> Option<Seq<char>> {
    let ps = path_parts(s);
    if ps.len() > 0 && ps.last() != ".."@ {
        Some(ps.last())
    } else {
        None
    }
}

/// The file stem of a path (`Path::file_stem`).
pub open spec fn path_file_stem(s: Seq<char>) -> Option<Seq<char>> {
    match path_file_name(s) {
        Some(n) => Some(stem_of(n)),
        None => None,
    }
}

/// The extension of a path (`Path::extension`).
pub open spec fn path_extension(s: Seq<char>) -> Option<Seq<char>> {
    match path_file_name(s) {
        Some(n) => extension_of(n),
        None => None,
    }
}

/// Length of the text of a path's parent, for a path with a file name
/// (`Path::parent`): the path up to the end of the component before the
/// file name, or its root `/`, or its leading `.`.
pub open spec fn path_parent_len(s: Seq<char>) -> int {
    let ps = path_parts(s);
    if ps.len() >= 2 {
        path_part_ends(s)[ps.len() - 2]
    } else if s.len() > 0 && s[0] == '/' {
        1
    } else if s.len() > 0 && s[0] == '.' && (s.len() == 1 || s[1] == '/') {
        1
    } else {
        0
    }
}

/// The path with its file name replaced by `name`, or `name` added when it
/// has none (`Path::with_file_name`).
pub open spec fn with_file_name(s: Seq<char>, name: Seq<char>) -> Seq<char> {
    match path_file_name(s) {
        Some(_) => joined(s.take(path_parent_len(s)), name),
        None => joined(s, name),
    }
}

/// The file name of aggregation level `level` beside a recording:
/// `<stem>.L<level>.bin`, the stem being `record` where the path has none.
pub open spec fn level_file_name(l0: Seq<char>, level: nat) -> Seq<char> {
    let stem = match path_file_stem(l0) {
        Some(t) => t,
        None => "record"@,
    };
    stem + ".L"@ + decimal(level) + ".bin"@
}

fn push_end(ends: &mut Vec<usize>, cur: &Vec<char>, at: usize)
    ensures
        final(ends)@.map_values(|e: usize| e as int) == (if cur@.len() == 0 || cur@ == "."@ {
            old(ends)@.map_values(|e: usize| e as int)
        } else {
            old(ends)@.map_values(|e: usize| e as int).push(at as int)
        }),
{
    proof {
        reveal_strlit(".");
    }
    let dot = chars_of(".");
    if cur.len() == 0 || chars_equal(cur, &dot) {
        return;
    }
    let ghost before = ends@;
    ends.push(at);
    assert(ends@.map_values(|e: usize| e as int) =~= before.map_values(|e: usize| e as int).push(at as int));
}

/// Where each component of `s` ends (see `path_part_ends`).
fn path_part_ends_of(s: &Vec<char>) -> (r: Vec<usize>)
    ensures
        r@.map_values(|e: usize| e as int) == path_part_ends(s@),
{
    let mut ends: Vec<usize> = Vec::new();
    let mut cur: Vec<char> = Vec::new();
    let mut i: usize = 0;
    assert(s@.take(0) =~= Seq::<char>::empty());
    assert(ends@.map_values(|e: usize| e as int) =~= Seq::<int>::empty());
    while i < s.len()
        invariant
            0 <= i <= s.len(),
            ends@.map_values(|e: usize| e as int) == scan_ends(s@.take(i as int)),
            cur@ == scan_parts(s@.take(i as int)).1,
        decreases s.len() - i,
    {
        assert(s@.take(i + 1).drop_last() =~= s@.take(i as int));
        assert(s@.take(i + 1).last() == s@[i as int]);
        if s[i] == '/' {
            push_end(&mut ends, &cur, i);
            cur = Vec::new();
            assert(cur@ =~= Seq::<char>::empty());
        } else {
            cur.push(s[i]);
        }
        i = i + 1;
    }
    assert(s@.take(s.len() as int) =~= s@);
    push_end(&mut ends, &cur, s.len());
    ends
}

/// The file name of `s` (see `path_file_name`).
fn path_file_name_of(s: &Vec<char>) -> (r: Option<Vec<char>>)
    ensures
        match path_file_name(s@) {
            Some(n) => r matches Some(v) && v@ == n,
            None => r is None,
        },
{
    proof {
        reveal_strlit("..");
    }
    let parts = path_parts_of(s);
    let ghost ps = parts@.map_values(|v: Vec<char>| v@);
    if parts.len() == 0 {
        return None;
    }
    let up = chars_of("..");
    let last = &parts[parts.len() - 1];
    assert(ps.last() == last@);
    if chars_equal(last, &up) {
        None
    } else {
        Some(last.clone())
    }
}

/// The file stem of `path` (see `path_file_stem`).
pub fn file_stem(path: &str) -> (r: Option<String>)
    ensures
        match path_file_stem(path@) {
            Some(t) => r matches Some(x) && x@ == t,
            None => r is None,
        },
{
    let cs = chars_of(path);
    let name = match path_file_name_of(&cs) {
        Some(n) => n,
        None => return None,
    };
    match find_last_dot(&name) {
        Some(i) => {
            if i == 0 {
                Some(string_from_chars(&name))
            } else {
                proof {
                    lemma_last_dot_bounds(name@);
                }
                let stem = slice_chars(&name, 0, i);
                assert(stem@ =~= name@.take(i as int));
                Some(string_from_chars(&stem))
            }
        },
        None => Some(string_from_chars(&name)),
    }
}

/// The extension of `path` (see `path_extension`).
pub fn file_extension(path: &str) -> (r: Option<String>)
    ensures
        match path_extension(path@) {
            Some(e) => r matches Some(x) && x@ == e,
            None => r is None,
        },
{
    let cs = chars_of(path);
    let name = match path_file_name_of(&cs) {
        Some(n) => n,
        None => return None,
    };
    match find_last_dot(&name) {
        Some(i) => {
            if i == 0 {
                None
            } else {
                proof {
                    lemma_last_dot_bounds(name@);
                }
                let ext = slice_chars(&name, i + 1, name.len());
                assert(ext@ =~= name@.skip(i + 1));
                Some(string_from_chars(&ext))
            }
        },
        None => None,
    }
}

/// The file of aggregation level `level` beside the raw recording `l0_path`:
/// the recording's path with the file name `level_file_name`.
pub fn sibling_level_path(l0_path: &str, level: usize) -> (r: String)
    ensures
        r@ == with_file_name(l0_path@, level_file_name(l0_path@, level as nat)),
{
    proof {
        reveal_strlit("record");
    }
    let cs = chars_of(l0_path);
    let mut name: Vec<char> = Vec::new();
    match file_stem(l0_path) {
        Some(stem) => push_str(&mut name, stem.as_str()),
        None => push_str(&mut name, "record"),
    }
    push_str(&mut name, ".L");
    push_decimal(&mut name, level as u64);
    push_str(&mut name, ".bin");
    let name_text = string_from_chars(&name);
    assert(name_text@ == level_file_name(l0_path@, level as nat));
    match path_file_name_of(&cs) {
        Some(_) => {
            let parts = path_parts_of(&cs);
            let ends = path_part_ends_of(&cs);
            proof {
                lemma_part_ends_len(cs@);
            }
            let parent_len: usize = if parts.len() >= 2 {
                assert(ends@.map_values(|e: usize| e as int)[parts.len() - 2] == ends@[parts.len() - 2] as int);
                ends[parts.len() - 2]
            } else if cs.len() > 0 && cs[0] == '/' {
                1
            } else if cs.len() > 0 && cs[0] == '.' && (cs.len() == 1 || cs[1] == '/') {
                1
            } else {
                0
            };
            assert(parent_len == path_parent_len(cs@));
            proof {
                lemma_parent_len_bound(cs@);
            }
            let parent = slice_chars(&cs, 0, parent_len);
            assert(parent@ =~= cs@.take(parent_len as int));
            let parent_text = string_from_chars(&parent);
            join_path(parent_text.as_str(), name_text.as_str())
        },
        None => join_path(l0_path, name_text.as_str()),
    }
}

} // verus!
