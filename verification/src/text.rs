use vstd::prelude::*;

verus! {

// ---------------------------------------------------------------------------
// Character classes
// ---------------------------------------------------------------------------

/// The Unicode `White_Space` property, as `char::is_whitespace` tests it.
pub open spec fn is_ws(c: char) -> bool {
    let u = c as u32;
    ||| 0x09 <= u <= 0x0d
    ||| u == 0x20
    ||| u == 0x85
    ||| u == 0xa0
    ||| u == 0x1680
    ||| 0x2000 <= u <= 0x200a
    ||| u == 0x2028
    ||| u == 0x2029
    ||| u == 0x202f
    ||| u == 0x205f
    ||| u == 0x3000
}

/// Whether `c` has the Unicode `White_Space` property.
pub fn is_whitespace(c: char) -> (b: bool)
    ensures
        b == is_ws(c),
{
    let u = c as u32;
    (0x09 <= u && u <= 0x0d) || u == 0x20 || u == 0x85 || u == 0xa0 || u == 0x1680 || (0x2000
        <= u && u <= 0x200a) || u == 0x2028 || u == 0x2029 || u == 0x202f || u == 0x205f || u
        == 0x3000
}

/// No character of `s` is a line feed.
pub open spec fn no_newline(s: Seq<char>) -> bool {
    forall|i: int| 0 <= i < s.len() ==> s[i] != '\n'
}

// ---------------------------------------------------------------------------
// Trimming
// ---------------------------------------------------------------------------

/// `s` without its leading whitespace.
pub open spec fn trim_start(s: Seq<char>) -> Seq<char>
    decreases s.len(),
{
    if s.len() > 0 && is_ws(s[0]) {
        trim_start(s.drop_first())
    } else {
        s
    }
}

/// `s` without its trailing whitespace.
pub open spec fn trim_end(s: Seq<char>) -> Seq<char>
    decreases s.len(),
{
    if s.len() > 0 && is_ws(s.last()) {
        trim_end(s.drop_last())
    } else {
        s
    }
}

/// `s` without leading and trailing whitespace, as `str::trim` gives it.
pub open spec fn trim(s: Seq<char>) -> Seq<char> {
    trim_end(trim_start(s))
}

/// With `k` the position of the first non-whitespace character (or the end),
/// trimming the start drops exactly the first `k` characters.
pub proof fn lemma_trim_start_at(s: Seq<char>, k: int)
    requires
        0 <= k <= s.len(),
        forall|i: int| 0 <= i < k ==> is_ws(s[i]),
        k == s.len() || !is_ws(s[k]),
    ensures
        trim_start(s) == s.subrange(k, s.len() as int),
    decreases k,
{
    if k == 0 {
        assert(s.subrange(0, s.len() as int) =~= s);
    } else {
        let d = s.drop_first();
        assert forall|i: int| 0 <= i < k - 1 implies is_ws(d[i]) by {
            assert(d[i] == s[i + 1]);
        }
        lemma_trim_start_at(d, k - 1);
        assert(d.subrange(k - 1, d.len() as int) =~= s.subrange(k, s.len() as int));
    }
}

/// With `k` the position just past the last non-whitespace character (or 0),
/// trimming the end keeps exactly the first `k` characters.
pub proof fn lemma_trim_end_at(s: Seq<char>, k: int)
    requires
        0 <= k <= s.len(),
        forall|i: int| k <= i < s.len() ==> is_ws(s[i]),
        k == 0 || !is_ws(s[k - 1]),
    ensures
        trim_end(s) == s.subrange(0, k),
    decreases s.len() - k,
{
    if k == s.len() {
        assert(s.subrange(0, k) =~= s);
    } else {
        let d = s.drop_last();
        assert forall|i: int| k <= i < d.len() implies is_ws(d[i]) by {
            assert(d[i] == s[i]);
        }
        assert(is_ws(s.last()));
        if k > 0 {
            assert(d[k - 1] == s[k - 1]);
        }
        lemma_trim_end_at(d, k);
        assert(d.subrange(0, k) =~= s.subrange(0, k));
    }
}

/// The bounds of `v[lo..hi]` with its leading and trailing whitespace removed.
pub fn trim_range(v: &Vec<char>, lo: usize, hi: usize) -> (r: (usize, usize))
    requires
        lo <= hi <= v.len(),
    ensures
        lo <= r.0 <= r.1 <= hi,
        v@.subrange(r.0 as int, r.1 as int) == trim(v@.subrange(lo as int, hi as int)),
{
    let ghost s = v@.subrange(lo as int, hi as int);
    let mut a = lo;
    while a < hi && is_whitespace(v[a])
        invariant
            lo <= a <= hi <= v.len(),
            s == v@.subrange(lo as int, hi as int),
            forall|i: int| lo <= i < a ==> is_ws(v@[i]),
        decreases hi - a,
    {
        a = a + 1;
    }
    proof {
        lemma_trim_start_at(s, a - lo);
        assert(s.subrange(a - lo, s.len() as int) =~= v@.subrange(a as int, hi as int));
    }
    let ghost t = v@.subrange(a as int, hi as int);
    let mut b = hi;
    while b > a && is_whitespace(v[b - 1])
        invariant
            lo <= a <= b <= hi <= v.len(),
            t == v@.subrange(a as int, hi as int),
            forall|i: int| b <= i < hi ==> is_ws(v@[i]),
        decreases b - a,
    {
        b = b - 1;
    }
    proof {
        lemma_trim_end_at(t, b - a);
        assert(t.subrange(0, b - a) =~= v@.subrange(a as int, b as int));
    }
    (a, b)
}

// ---------------------------------------------------------------------------
// Splitting at the first whitespace
// ---------------------------------------------------------------------------

/// `i` is the position of the first whitespace character of `s`.
pub open spec fn is_first_ws(s: Seq<char>, i: int) -> bool {
    &&& 0 <= i < s.len()
    &&& is_ws(s[i])
    &&& forall|j: int| 0 <= j < i ==> !is_ws(s[j])
}

/// The position of the first whitespace character of `s`, if there is one.
pub open spec fn first_ws(s: Seq<char>) -> Option<int> {
    if exists|i: int| is_first_ws(s, i) {
        Some(choose|i: int| is_first_ws(s, i))
    } else {
        None
    }
}

/// The position in `v[lo..hi]` of its first whitespace character, counted from `lo`.
pub fn find_first_ws(v: &Vec<char>, lo: usize, hi: usize) -> (r: Option<usize>)
    requires
        lo <= hi <= v.len(),
    ensures
        match r {
            Some(i) => first_ws(v@.subrange(lo as int, hi as int)) == Some(i as int),
            None => first_ws(v@.subrange(lo as int, hi as int)) is None,
        },
{
    let ghost s = v@.subrange(lo as int, hi as int);
    let mut i = lo;
    while i < hi
        invariant
            lo <= i <= hi <= v.len(),
            s == v@.subrange(lo as int, hi as int),
            forall|j: int| 0 <= j < i - lo ==> !is_ws(s[j]),
        decreases hi - i,
    {
        if is_whitespace(v[i]) {
            proof {
                assert(s[i - lo] == v@[i as int]);
                assert(is_first_ws(s, i - lo));
                let c = choose|k: int| is_first_ws(s, k);
                assert(c == i - lo) by {
                    if c < i - lo {
                        assert(!is_ws(s[c]));
                    }
                    if c > i - lo {
                        assert(!is_ws(s[i - lo]));
                    }
                }
            }
            return Some(i - lo);
        }
        assert(s[i - lo] == v@[i as int]);
        i = i + 1;
    }
    proof {
        assert forall|k: int| !is_first_ws(s, k) by {
            if 0 <= k < s.len() {
                assert(!is_ws(s[k]));
            }
        }
    }
    None
}

// ---------------------------------------------------------------------------
// Lines
// ---------------------------------------------------------------------------

/// `s` without one trailing carriage return.
pub open spec fn strip_cr(s: Seq<char>) -> Seq<char> {
    if s.len() > 0 && s.last() == '\r' {
        s.drop_last()
    } else {
        s
    }
}

/// The lines of `s` that a line feed has ended, and the text after the last line feed.
pub open spec fn line_scan(s: Seq<char>) -> (Seq<Seq<char>>, Seq<char>)
    decreases s.len(),
{
    if s.len() == 0 {
        (Seq::empty(), Seq::empty())
    } else {
        let (done, cur) = line_scan(s.drop_last());
        if s.last() == '\n' {
            (done.push(strip_cr(cur)), Seq::empty())
        } else {
            (done, cur.push(s.last()))
        }
    }
}

/// The lines of `s` as `str::lines` yields them: split at each line feed, a
/// carriage return before the line feed dropped, and no empty last line.
pub open spec fn lines_of(s: Seq<char>) -> Seq<Seq<char>> {
    let (done, cur) = line_scan(s);
    if cur.len() > 0 {
        done.push(cur)
    } else {
        done
    }
}

/// `r` holds the bounds in `s` of each line of `s`.
pub closed spec fn are_line_ranges(s: Seq<char>, r: Seq<(usize, usize)>) -> bool {
    &&& r.len() == lines_of(s).len()
    &&& forall|k: int| 0 <= k < r.len() ==> #[trigger] r[k].0 <= r[k].1 <= s.len()
    &&& forall|k: int| 0 <= k < r.len() ==> s.subrange(r[k].0 as int, r[k].1 as int) == #[trigger] lines_of(s)[k]
}

/// What bounds of lines tell: how many lines there are, and where line `k` is.
pub proof fn lemma_line_range(s: Seq<char>, r: Seq<(usize, usize)>, k: int)
    requires
        are_line_ranges(s, r),
    ensures
        r.len() == lines_of(s).len(),
        0 <= k < r.len() ==> r[k].0 <= r[k].1 <= s.len() && s.subrange(r[k].0 as int, r[k].1 as int)
            == lines_of(s)[k],
{
    if 0 <= k < r.len() {
        assert(r[k].0 <= r[k].1 <= s.len());
        assert(s.subrange(r[k].0 as int, r[k].1 as int) == lines_of(s)[k]);
    }
}

/// The bounds in `v` of each line of `v`.
pub fn line_ranges(v: &Vec<char>) -> (r: Vec<(usize, usize)>)
    ensures
        are_line_ranges(v@, r@),
        r@.len() == lines_of(v@).len(),
        forall|k: int| 0 <= k < r@.len() ==> #[trigger] r@[k].0 <= r@[k].1 <= v.len(),
        forall|k: int|
            0 <= k < r@.len() ==> v@.subrange(r@[k].0 as int, r@[k].1 as int)
                == #[trigger] lines_of(v@)[k],
{
    let mut r: Vec<(usize, usize)> = Vec::new();
    let mut start: usize = 0;
    let mut i: usize = 0;
    let n = v.len();
    while i < n
        invariant
            n == v.len(),
            start <= i <= n,
            line_scan(v@.take(i as int)).1 == v@.subrange(start as int, i as int),
            line_scan(v@.take(i as int)).0.len() == r@.len(),
            forall|k: int| 0 <= k < r@.len() ==> #[trigger] r@[k].0 <= r@[k].1 <= n,
            forall|k: int|
                0 <= k < r@.len() ==> v@.subrange(r@[k].0 as int, r@[k].1 as int)
                    == #[trigger] line_scan(v@.take(i as int)).0[k],
        decreases n - i,
    {
        let ghost prev = line_scan(v@.take(i as int));
        let ghost old_r = r@;
        assert(v@.take(i + 1).drop_last() =~= v@.take(i as int));
        assert(v@.take(i + 1).last() == v@[i as int]);
        assert(line_scan(v@.take(i + 1)) == (if v@[i as int] == '\n' {
            (prev.0.push(strip_cr(prev.1)), Seq::<char>::empty())
        } else {
            (prev.0, prev.1.push(v@[i as int]))
        }));
        if v[i] == '\n' {
            let mut end = i;
            if i > start && v[i - 1] == '\r' {
                end = i - 1;
            }
            proof {
                let cur = v@.subrange(start as int, i as int);
                assert(strip_cr(cur) =~= v@.subrange(start as int, end as int));
            }
            r.push((start, end));
            proof {
                let nd = line_scan(v@.take(i + 1)).0;
                assert forall|k: int| 0 <= k < r@.len() implies v@.subrange(
                    r@[k].0 as int,
                    r@[k].1 as int,
                ) == #[trigger] nd[k] by {
                    if k < old_r.len() {
                        assert(r@[k] == old_r[k]);
                        assert(nd[k] == prev.0[k]);
                    }
                }
                assert forall|k: int| 0 <= k < r@.len() implies #[trigger] r@[k].0 <= r@[k].1 <= n by {
                    if k < old_r.len() {
                        assert(r@[k] == old_r[k]);
                    }
                }
            }
            start = i + 1;
            assert(v@.subrange(start as int, i + 1) =~= Seq::<char>::empty());
        } else {
            assert(v@.subrange(start as int, i + 1) =~= v@.subrange(start as int, i as int).push(
                v@[i as int],
            ));
            proof {
                let nd = line_scan(v@.take(i + 1)).0;
                assert forall|k: int| 0 <= k < r@.len() implies v@.subrange(
                    r@[k].0 as int,
                    r@[k].1 as int,
                ) == #[trigger] nd[k] by {
                    assert(nd[k] == prev.0[k]);
                }
            }
        }
        i = i + 1;
    }
    assert(v@.take(n as int) =~= v@);
    let ghost done = line_scan(v@).0;
    let ghost old_r = r@;
    if start < n {
        r.push((start, n));
        proof {
            assert forall|k: int| 0 <= k < r@.len() implies v@.subrange(
                r@[k].0 as int,
                r@[k].1 as int,
            ) == #[trigger] lines_of(v@)[k] by {
                if k < old_r.len() {
                    assert(r@[k] == old_r[k]);
                    assert(lines_of(v@)[k] == done[k]);
                }
            }
            assert forall|k: int| 0 <= k < r@.len() implies #[trigger] r@[k].0 <= r@[k].1 <= v.len() by {
                if k < old_r.len() {
                    assert(r@[k] == old_r[k]);
                }
            }
        }
    } else {
        assert(lines_of(v@) == done);
        assert forall|k: int| 0 <= k < r@.len() implies v@.subrange(
            r@[k].0 as int,
            r@[k].1 as int,
        ) == #[trigger] lines_of(v@)[k] by {
            assert(lines_of(v@)[k] == done[k]);
        }
    }
    r
}

// ---------------------------------------------------------------------------
// Joining
// ---------------------------------------------------------------------------

/// The pieces of `parts` with `sep` between each two, as `join` on a slice gives them.
pub open spec fn join(parts: Seq<Seq<char>>, sep: Seq<char>) -> Seq<char>
    decreases parts.len(),
{
    if parts.len() == 0 {
        Seq::empty()
    } else if parts.len() == 1 {
        parts[0]
    } else {
        join(parts.drop_last(), sep) + sep + parts.last()
    }
}

// ---------------------------------------------------------------------------
// Numbers
// ---------------------------------------------------------------------------

/// The ASCII decimal digit of `d`, for `d < 10`.
pub open spec fn digit_char(d: nat) -> char {
    (('0' as u32) + d) as char
}

/// Whether `c` is an ASCII decimal digit.
pub open spec fn is_digit(c: char) -> bool {
    '0' <= c <= '9'
}

/// The value of the digit `c`.
pub open spec fn digit_value(c: char) -> nat {
    ((c as u32) - ('0' as u32)) as nat
}

/// The value of the decimal numeral `s`.
pub open spec fn decimal_value(s: Seq<char>) -> nat
    decreases s.len(),
{
    if s.len() == 0 {
        0
    } else {
        decimal_value(s.drop_last()) * 10 + digit_value(s.last())
    }
}

/// Every character of `s` is a decimal digit.
pub open spec fn all_digits(s: Seq<char>) -> bool {
    forall|i: int| 0 <= i < s.len() ==> is_digit(#[trigger] s[i])
}

/// The value of `s` read as an unsigned number no larger than `max`, as
/// `from_str` of an unsigned integer type reads it: an optional `+`, then one or
/// more digits whose value is at most `max`.
pub open spec fn parse_unsigned_spec(s: Seq<char>, max: nat) -> Option<nat> {
    let d = if s.len() > 0 && s[0] == '+' {
        s.drop_first()
    } else {
        s
    };
    if d.len() > 0 && all_digits(d) && decimal_value(d) <= max {
        Some(decimal_value(d))
    } else {
        None
    }
}

/// What `u16::from_str` gives for `s`.
pub open spec fn parse_u16_spec(s: Seq<char>) -> Option<u16> {
    match parse_unsigned_spec(s, 0xffff) {
        Some(n) => Some(n as u16),
        None => None,
    }
}

/// What `u32::from_str` gives for `s`.
pub open spec fn parse_u32_spec(s: Seq<char>) -> Option<u32> {
    match parse_unsigned_spec(s, 0xffff_ffff) {
        Some(n) => Some(n as u32),
        None => None,
    }
}

/// The decimal numeral of `n`, without leading zeros, as `Display` writes it.
pub open spec fn decimal(n: nat) -> Seq<char>
    decreases n,
{
    if n < 10 {
        seq![digit_char(n)]
    } else {
        decimal(n / 10).push(digit_char(n % 10))
    }
}

/// A prefix of a numeral has a value no greater than the whole numeral.
pub proof fn lemma_decimal_value_mono(s: Seq<char>, k: int)
    requires
        0 <= k <= s.len(),
        all_digits(s),
    ensures
        decimal_value(s.take(k)) <= decimal_value(s),
    decreases s.len() - k,
{
    if k < s.len() {
        let d = s.drop_last();
        assert(d.take(k) =~= s.take(k)) by {
            assert(k <= d.len());
        }
        assert(all_digits(d)) by {
            assert forall|i: int| 0 <= i < d.len() implies is_digit(d[i]) by {
                assert(d[i] == s[i]);
            }
        }
        if k < d.len() + 1 && k <= d.len() {
            lemma_decimal_value_mono(d, k);
        }
        assert(decimal_value(s) == decimal_value(d) * 10 + digit_value(s.last()));
    } else {
        assert(s.take(k) =~= s);
    }
}

/// The value of the numeral in `v[lo..hi]`, if it is one no larger than `max`.
fn parse_unsigned(v: &Vec<char>, lo: usize, hi: usize, max: u64) -> (r: Option<u64>)
    requires
        lo <= hi <= v.len(),
        max <= 0xffff_ffff,
    ensures
        match parse_unsigned_spec(v@.subrange(lo as int, hi as int), max as nat) {
            Some(n) => r == Some(n as u64),
            None => r is None,
        },
{
    let ghost s = v@.subrange(lo as int, hi as int);
    let mut start = lo;
    if lo < hi && v[lo] == '+' {
        start = lo + 1;
    }
    let ghost d = v@.subrange(start as int, hi as int);
    assert(d =~= (if s.len() > 0 && s[0] == '+' { s.drop_first() } else { s }));
    if start == hi {
        return None;
    }
    let mut acc: u64 = 0;
    let mut i = start;
    while i < hi
        invariant
            lo <= start <= i <= hi <= v.len(),
            max <= 0xffff_ffff,
            d == v@.subrange(start as int, hi as int),
            s == v@.subrange(lo as int, hi as int),
            d == (if s.len() > 0 && s[0] == '+' { s.drop_first() } else { s }),
            all_digits(d.take(i - start)),
            acc == decimal_value(d.take(i - start)),
            acc <= max,
        decreases hi - i,
    {
        let c = v[i];
        let ghost t = d.take(i - start + 1);
        assert(t.drop_last() =~= d.take(i - start));
        assert(t.last() == c);
        assert(d[i - start] == c);
        if c < '0' || c > '9' {
            assert(!is_digit(d[i - start]));
            assert(!all_digits(d));
            return None;
        }
        let dv = (c as u64) - ('0' as u64);
        assert(all_digits(t)) by {
            assert forall|j: int| 0 <= j < t.len() implies is_digit(t[j]) by {
                if j < t.len() - 1 {
                    assert(t[j] == d.take(i - start)[j]);
                }
            }
        }
        let next = acc * 10 + dv;
        if next > max {
            // The remaining characters can only raise the value, or fail to be digits.
            proof {
                assert(digit_value(c) == dv);
                assert(decimal_value(t) == acc * 10 + dv);
                if all_digits(d) {
                    lemma_decimal_value_mono(d, i - start + 1);
                    assert(decimal_value(d) > max);
                }
            }
            return None;
        }
        acc = next;
        i = i + 1;
    }
    assert(d.take(hi - start) =~= d);
    Some(acc)
}

/// The value of the numeral in `v[lo..hi]`, as `u16::from_str` parses it.
pub fn parse_u16(v: &Vec<char>, lo: usize, hi: usize) -> (r: Option<u16>)
    requires
        lo <= hi <= v.len(),
    ensures
        r == parse_u16_spec(v@.subrange(lo as int, hi as int)),
{
    match parse_unsigned(v, lo, hi, 0xffff) {
        Some(n) => Some(n as u16),
        None => None,
    }
}

/// The value of the numeral in `v[lo..hi]`, as `u32::from_str` parses it.
pub fn parse_u32(v: &Vec<char>, lo: usize, hi: usize) -> (r: Option<u32>)
    requires
        lo <= hi <= v.len(),
    ensures
        r == parse_u32_spec(v@.subrange(lo as int, hi as int)),
{
    match parse_unsigned(v, lo, hi, 0xffff_ffff) {
        Some(n) => Some(n as u32),
        None => None,
    }
}

// ---------------------------------------------------------------------------
// Building strings
// ---------------------------------------------------------------------------

/// Appends `c` to `s` by `String::push`.
#[verifier::external_body]
pub(crate) fn push_char(s: &mut String, c: char)
    ensures
        final(s)@ == old(s)@.push(c),
{
    s.push(c);
}

/// The characters of `s`.
pub fn to_chars(s: &str) -> (out: Vec<char>)
    ensures
        out@ == s@,
{
    let mut out: Vec<char> = Vec::new();
    for c in it: s.chars()
        invariant
            out@ == it.seq().take(it.index() as int),
            it.seq() == s@,
    {
        out.push(c);
    }
    out
}

/// The string of the characters `v[lo..hi]`.
pub fn string_from(v: &Vec<char>, lo: usize, hi: usize) -> (s: String)
    requires
        lo <= hi <= v.len(),
    ensures
        s@ == v@.subrange(lo as int, hi as int),
{
    let mut s = String::new();
    let mut i = lo;
    while i < hi
        invariant
            lo <= i <= hi <= v.len(),
            s@ == v@.subrange(lo as int, i as int),
        decreases hi - i,
    {
        push_char(&mut s, v[i]);
        assert(v@.subrange(lo as int, i + 1) =~= v@.subrange(lo as int, i as int).push(v@[i as int]));
        i = i + 1;
    }
    s
}

/// Appends the characters of `t` to `s`.
pub fn push_str(s: &mut String, t: &str)
    ensures
        final(s)@ == old(s)@ + t@,
{
    let cs = to_chars(t);
    let mut i: usize = 0;
    while i < cs.len()
        invariant
            0 <= i <= cs.len(),
            cs@ == t@,
            s@ == old(s)@ + cs@.take(i as int),
        decreases cs.len() - i,
    {
        push_char(s, cs[i]);
        assert(cs@.take(i + 1) =~= cs@.take(i as int).push(cs@[i as int]));
        i = i + 1;
    }
    assert(cs@.take(cs.len() as int) =~= cs@);
}

/// Appends the decimal numeral of `n` to `s`.
pub fn push_decimal(s: &mut String, n: u64)
    ensures
        final(s)@ == old(s)@ + decimal(n as nat),
    decreases n,
{
    if n >= 10 {
        push_decimal(s, n / 10);
    }
    let d = (n % 10) as u32;
    let c = char_from_digit(d);
    push_char(s, c);
    proof {
        if n < 10 {
            assert(decimal(n as nat) =~= seq![digit_char(n as nat)]);
        } else {
            assert(decimal(n as nat) == decimal((n / 10) as nat).push(digit_char((n % 10) as nat)));
        }
    }
}

/// The ASCII digit of `d`.
fn char_from_digit(d: u32) -> (c: char)
    requires
        d < 10,
    ensures
        c == digit_char(d as nat),
{
    if d == 0 {
        '0'
    } else if d == 1 {
        '1'
    } else if d == 2 {
        '2'
    } else if d == 3 {
        '3'
    } else if d == 4 {
        '4'
    } else if d == 5 {
        '5'
    } else if d == 6 {
        '6'
    } else if d == 7 {
        '7'
    } else if d == 8 {
        '8'
    } else {
        '9'
    }
}

/// Whether `v[lo..hi]` holds exactly the characters of `t`.
pub fn range_eq_str(v: &Vec<char>, lo: usize, hi: usize, t: &str) -> (b: bool)
    requires
        lo <= hi <= v.len(),
    ensures
        b == (v@.subrange(lo as int, hi as int) == t@),
{
    let tc = to_chars(t);
    if hi - lo != tc.len() {
        return false;
    }
    let mut i: usize = 0;
    while i < tc.len()
        invariant
            0 <= i <= tc.len(),
            tc@ == t@,
            hi - lo == tc.len(),
            lo <= hi <= v.len(),
            forall|j: int| 0 <= j < i ==> v@[lo + j] == tc@[j],
        decreases tc.len() - i,
    {
        if v[lo + i] != tc[i] {
            assert(v@.subrange(lo as int, hi as int)[i as int] != t@[i as int]);
            return false;
        }
        i = i + 1;
    }
    assert(v@.subrange(lo as int, hi as int) =~= t@);
    true
}

/// Whether the strings `a` and `b` hold the same characters.
pub fn str_eq(a: &str, b: &str) -> (r: bool)
    ensures
        r == (a@ == b@),
{
    let ac = to_chars(a);
    assert(ac@.subrange(0, ac@.len() as int) =~= ac@);
    range_eq_str(&ac, 0, ac.len(), b)
}

// ---------------------------------------------------------------------------
// Case
// ---------------------------------------------------------------------------

/// What `str::to_lowercase` gives for a string that is not all ASCII: its
/// Unicode lowercase mapping.
pub uninterp spec fn unicode_lowercase(s: Seq<char>) -> Seq<char>;

/// Every character of `s` is ASCII.
pub open spec fn all_ascii(s: Seq<char>) -> bool {
    forall|i: int| 0 <= i < s.len() ==> (s[i] as u32) < 0x80
}

/// `c` with `A`..`Z` turned into `a`..`z`.
pub open spec fn ascii_lower_char(c: char) -> char {
    if 'A' <= c <= 'Z' {
        ((c as u32) + 32) as char
    } else {
        c
    }
}

/// `s` with each ASCII capital letter turned into its small letter.
pub open spec fn ascii_lowercase(s: Seq<char>) -> Seq<char> {
    s.map_values(|c: char| ascii_lower_char(c))
}

/// What `str::to_lowercase` gives for a string: on ASCII text the ASCII
/// mapping, otherwise the Unicode one.
pub open spec fn lowercase(s: Seq<char>) -> Seq<char> {
    if all_ascii(s) {
        ascii_lowercase(s)
    } else {
        unicode_lowercase(s)
    }
}

/// Lowercases `s` by `str::to_lowercase`.
///
/// Claimed: the result is the Unicode lowercase mapping of `s`, which on ASCII
/// text is the ASCII one (capitals to small letters, nothing else changed);
/// beyond ASCII the mapping is named, not described.
#[verifier::external_body]
pub(crate) fn to_lowercase(s: &str) -> (r: String)
    ensures
        all_ascii(s@) ==> r@ == ascii_lowercase(s@),
        !all_ascii(s@) ==> r@ == unicode_lowercase(s@),
{
    s.to_lowercase()
}

} // verus!
