use vstd::prelude::*;
use crate::text::{parse_u32, parse_u32_spec, string_from, to_chars};

verus! {

/// A newer release than the running one.
#[derive(Debug, Clone)]
pub struct UpdateInfo {
    pub latest_version: String,
    pub release_url: String,
}

/// `i` is the position of the first `c` in `s`.
pub open spec fn is_first_of(s: Seq<char>, c: char, i: int) -> bool {
    &&& 0 <= i < s.len()
    &&& s[i] == c
    &&& forall|j: int| 0 <= j < i ==> s[j] != c
}

/// The position of the first `c` in `s`, if there is one.
pub open spec fn first_of(s: Seq<char>, c: char) -> Option<int> {
    if exists|i: int| is_first_of(s, c, i) {
        Some(choose|i: int| is_first_of(s, c, i))
    } else {
        None
    }
}

/// The position of the first `c` in `v[lo..hi]`, counted from `lo`.
fn find_char(v: &Vec<char>, lo: usize, hi: usize, c: char) -> (r: Option<usize>)
    requires
        lo <= hi <= v.len(),
    ensures
        match r {
            Some(i) => first_of(v@.subrange(lo as int, hi as int), c) == Some(i as int),
            None => first_of(v@.subrange(lo as int, hi as int), c) is None,
        },
{
    let ghost s = v@.subrange(lo as int, hi as int);
    let mut i = lo;
    while i < hi
        invariant
            lo <= i <= hi <= v.len(),
            s == v@.subrange(lo as int, hi as int),
            forall|j: int| 0 <= j < i - lo ==> s[j] != c,
        decreases hi - i,
    {
        assert(s[i - lo] == v@[i as int]);
        if v[i] == c {
            proof {
                assert(is_first_of(s, c, i - lo));
                let k = choose|k: int| is_first_of(s, c, k);
                if k < i - lo {
                    assert(s[k] != c);
                }
                if k > i - lo {
                    assert(s[i - lo] != c);
                }
            }
            return Some(i - lo);
        }
        i = i + 1;
    }
    proof {
        assert forall|k: int| !is_first_of(s, c, k) by {
            if 0 <= k < s.len() {
                assert(s[k] != c);
            }
        }
    }
    None
}

/// The number a part of a version gives: its value, or 0 where it is not a number.
pub open spec fn part_value(p: Seq<char>) -> u32 {
    match parse_u32_spec(p) {
        Some(n) => n,
        None => 0,
    }
}

/// The pieces of `s` split at `.` into at most three, the third keeping any
/// further dots, as `splitn(3, '.')` yields them.
pub open spec fn version_pieces(s: Seq<char>) -> Seq<Seq<char>> {
    match first_of(s, '.') {
        None => seq![s],
        Some(i) => {
            let rest = s.skip(i + 1);
            match first_of(rest, '.') {
                None => seq![s.take(i), rest],
                Some(j) => seq![s.take(i), rest.take(j), rest.skip(j + 1)],
            }
        },
    }
}

/// The major, minor and patch numbers of a version text; a missing or
/// unreadable part counts as 0.
pub open spec fn version_numbers(s: Seq<char>) -> (u32, u32, u32) {
    let p = version_pieces(s);
    (
        part_value(p[0]),
        if p.len() > 1 { part_value(p[1]) } else { 0 },
        if p.len() > 2 { part_value(p[2]) } else { 0 },
    )
}

/// `a` comes after `b` in the order of major, then minor, then patch.
pub open spec fn later(a: (u32, u32, u32), b: (u32, u32, u32)) -> bool {
    a.0 > b.0 || (a.0 == b.0 && (a.1 > b.1 || (a.1 == b.1 && a.2 > b.2)))
}

/// The version `latest` is newer than the version `current`.
pub open spec fn newer(latest: Seq<char>, current: Seq<char>) -> bool {
    later(version_numbers(latest), version_numbers(current))
}

/// The number a part of a version gives: its value, or 0 where it is not a number.
fn part_number(v: &Vec<char>, lo: usize, hi: usize) -> (n: u32)
    requires
        lo <= hi <= v.len(),
    ensures
        n == part_value(v@.subrange(lo as int, hi as int)),
{
    match parse_u32(v, lo, hi) {
        Some(n) => n,
        None => 0,
    }
}

/// The major, minor and patch numbers of a version text such as `1.4.2`.
pub fn parse_version(text: &str) -> (r: [u32; 3])
    ensures
        r@ == seq![version_numbers(text@).0, version_numbers(text@).1, version_numbers(text@).2],
{
    let v = to_chars(text);
    let n = v.len();
    let ghost s = v@;
    assert(v@.subrange(0, n as int) =~= s);
    let r = match find_char(&v, 0, n, '.') {
        None => [part_number(&v, 0, n), 0, 0],
        Some(i) => {
            let ghost rest = s.skip(i + 1);
            assert(v@.subrange(i + 1, n as int) =~= rest);
            assert(v@.subrange(0, i as int) =~= s.take(i as int));
            match find_char(&v, i + 1, n, '.') {
                None => [part_number(&v, 0, i), part_number(&v, i + 1, n), 0],
                Some(j) => {
                    assert(v@.subrange(i + 1, i + 1 + j) =~= rest.take(j as int));
                    assert(v@.subrange(i + 1 + j + 1, n as int) =~= rest.skip(j + 1));
                    [
                        part_number(&v, 0, i),
                        part_number(&v, i + 1, i + 1 + j),
                        part_number(&v, i + 1 + j + 1, n),
                    ]
                },
            }
        },
    };
    assert(r@ =~= seq![version_numbers(text@).0, version_numbers(text@).1, version_numbers(text@).2]);
    r
}

/// Whether the version `latest` is newer than `current` (major.minor.patch).
pub fn is_newer(latest: &str, current: &str) -> (b: bool)
    ensures
        b == newer(latest@, current@),
{
    let a = parse_version(latest);
    let c = parse_version(current);
    a[0] > c[0] || (a[0] == c[0] && (a[1] > c[1] || (a[1] == c[1] && a[2] > c[2])))
}

/// `s` without its leading `v`s.
pub open spec fn strip_v(s: Seq<char>) -> Seq<char>
    decreases s.len(),
{
    if s.len() > 0 && s[0] == 'v' {
        strip_v(s.drop_first())
    } else {
        s
    }
}

/// With `k` the number of leading `v`s, stripping them drops the first `k` characters.
proof fn lemma_strip_v_at(s: Seq<char>, k: int)
    requires
        0 <= k <= s.len(),
        forall|i: int| 0 <= i < k ==> s[i] == 'v',
        k == s.len() || s[k] != 'v',
    ensures
        strip_v(s) == s.skip(k),
    decreases k,
{
    if k == 0 {
        assert(s.skip(0) =~= s);
    } else {
        let d = s.drop_first();
        assert forall|i: int| 0 <= i < k - 1 implies d[i] == 'v' by {
            assert(d[i] == s[i + 1]);
        }
        lemma_strip_v_at(d, k - 1);
        assert(d.skip(k - 1) =~= s.skip(k));
    }
}

/// `text` without its leading `v`s, as `trim_start_matches('v')` gives it.
fn without_v(text: &str) -> (r: String)
    ensures
        r@ == strip_v(text@),
{
    let v = to_chars(text);
    let mut k: usize = 0;
    while k < v.len() && v[k] == 'v'
        invariant
            0 <= k <= v.len(),
            v@ == text@,
            forall|i: int| 0 <= i < k ==> v@[i] == 'v',
        decreases v.len() - k,
    {
        k = k + 1;
    }
    proof {
        lemma_strip_v_at(v@, k as int);
        assert(v@.subrange(k as int, v@.len() as int) =~= v@.skip(k as int));
    }
    string_from(&v, k, v.len())
}

/// What the update check reports of the latest release, tagged `tag_name` and
/// published at `html_url`, for a program at `current_version`: the release if
/// its version (leading `v`s dropped) is newer, otherwise nothing.
pub fn update_from_release(tag_name: &str, html_url: &str, current_version: &str) -> (r: Option<UpdateInfo>)
    ensures
        newer(strip_v(tag_name@), strip_v(current_version@)) <==> r is Some,
        r matches Some(u) ==> u.latest_version@ == tag_name@ && u.release_url@ == html_url@,
{
    let tag = without_v(tag_name);
    let current = without_v(current_version);
    if is_newer(tag.as_str(), current.as_str()) {
        let u = UpdateInfo { latest_version: tag_name.to_string(), release_url: html_url.to_string() };
        proof {
            vstd::string::to_string_from_display_ensures_for_str(tag_name, u.latest_version);
            vstd::string::to_string_from_display_ensures_for_str(html_url, u.release_url);
        }
        Some(u)
    } else {
        None
    }
}

/// No version is newer than itself.
pub proof fn law_newer_irreflexive(v: Seq<char>)
    ensures
        !newer(v, v),
{
}

/// Of two versions, at most one is newer than the other.
pub proof fn law_newer_asymmetric(a: Seq<char>, b: Seq<char>)
    ensures
        newer(a, b) ==> !newer(b, a),
{
}

/// A version newer than one that is newer than a third is newer than the third.
pub proof fn law_newer_transitive(a: Seq<char>, b: Seq<char>, c: Seq<char>)
    ensures
        newer(a, b) && newer(b, c) ==> newer(a, c),
{
}

} // verus!
