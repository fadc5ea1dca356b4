use vstd::prelude::*;
use crate::host::{config_block, Host, HostView};
use crate::id::new_id;
use crate::text::{
    are_line_ranges, find_first_ws, first_ws, join, lemma_line_range, line_ranges, lines_of, lowercase, parse_u16, parse_u16_spec, push_str,
    range_eq_str, str_eq, string_from, to_chars, to_lowercase, trim, trim_range,
};

verus! {

// ---------------------------------------------------------------------------
// Joining strings
// ---------------------------------------------------------------------------

/// Joining one more part appends the separator and the part.
proof fn lemma_join_push(parts: Seq<Seq<char>>, x: Seq<char>, sep: Seq<char>)
    ensures
        join(parts.push(x), sep) == if parts.len() == 0 {
            x
        } else {
            join(parts, sep) + sep + x
        },
{
    assert(parts.push(x).drop_last() =~= parts);
    if parts.len() == 0 {
        assert(parts.push(x)[0] == x);
    }
}

/// The strings of `parts` with `sep` between each two.
pub fn join_strings(parts: &Vec<String>, sep: &str) -> (s: String)
    ensures
        s@ == join(parts.deep_view(), sep@),
{
    let mut s = String::new();
    let mut i: usize = 0;
    while i < parts.len()
        invariant
            0 <= i <= parts.len(),
            s@ == join(parts.deep_view().take(i as int), sep@),
        decreases parts.len() - i,
    {
        let ghost before = parts.deep_view().take(i as int);
        proof {
            assert(parts.deep_view().take(i + 1) =~= before.push(parts[i as int]@));
            lemma_join_push(before, parts[i as int]@, sep@);
        }
        if i > 0 {
            push_str(&mut s, sep);
        }
        push_str(&mut s, parts[i].as_str());
        proof {
            if i == 0 {
                assert(s@ =~= parts[i as int]@);
            }
        }
        i = i + 1;
    }
    assert(parts.deep_view().take(parts.len() as int) =~= parts.deep_view());
    s
}

// ---------------------------------------------------------------------------
// Parsing `~/.ssh/config`
// ---------------------------------------------------------------------------

/// The parser's progress: the hosts it has finished, and the host it is reading.
pub struct ParseState {
    pub hosts: Seq<HostView>,
    pub current: Option<HostView>,
}

/// `h` with the address `v`.
pub open spec fn with_hostname(h: HostView, v: Seq<char>) -> HostView {
    HostView { hostname: v, ..h }
}

/// `h` with the user `v`.
pub open spec fn with_user(h: HostView, v: Seq<char>) -> HostView {
    HostView { user: v, ..h }
}

/// `h` with the port `p`.
pub open spec fn with_port(h: HostView, p: u16) -> HostView {
    HostView { port: p, ..h }
}

/// `h` with the key file `v`.
pub open spec fn with_identity_file(h: HostView, v: Seq<char>) -> HostView {
    HostView { identity_file: Some(v), ..h }
}

/// The port a `Port` value gives: its number, or 22 where it is not one.
pub open spec fn port_value(v: Seq<char>) -> u16 {
    match parse_u16_spec(v) {
        Some(n) => n,
        None => 22,
    }
}

/// The effect of a keyword line with the (lowercased) keyword `key` and the
/// value `value`: `host` finishes the current host (a `*` pattern is dropped)
/// and starts a new one with the default user; `hostname`, `user`, `port` and
/// `identityfile` set a field of the current host; other keywords are ignored.
pub open spec fn apply_keyword(st: ParseState, key: Seq<char>, value: Seq<char>, default_user: Seq<char>) -> ParseState {
    if key == "host"@ {
        ParseState {
            hosts: match st.current {
                Some(h) => if h.alias != "*"@ {
                    st.hosts.push(h)
                } else {
                    st.hosts
                },
                None => st.hosts,
            },
            current: Some(HostView::fresh(value, Seq::empty(), default_user)),
        }
    } else if key == "hostname"@ {
        ParseState {
            hosts: st.hosts,
            current: match st.current {
                Some(h) => Some(with_hostname(h, value)),
                None => None,
            },
        }
    } else if key == "user"@ {
        ParseState {
            hosts: st.hosts,
            current: match st.current {
                Some(h) => Some(with_user(h, value)),
                None => None,
            },
        }
    } else if key == "port"@ {
        ParseState {
            hosts: st.hosts,
            current: match st.current {
                Some(h) => Some(with_port(h, port_value(value))),
                None => None,
            },
        }
    } else if key == "identityfile"@ {
        ParseState {
            hosts: st.hosts,
            current: match st.current {
                Some(h) => Some(with_identity_file(h, value)),
                None => None,
            },
        }
    } else {
        st
    }
}

/// The effect of one line of the file on the parser: blank lines, comments and
/// lines without whitespace change nothing; otherwise the text before the first
/// whitespace, lowercased, is the keyword, and the trimmed rest its value.
pub open spec fn parse_line(st: ParseState, line: Seq<char>, default_user: Seq<char>) -> ParseState {
    let l = trim(line);
    if l.len() == 0 || l[0] == '#' {
        st
    } else {
        match first_ws(l) {
            None => st,
            Some(p) => apply_keyword(
                st,
                lowercase(l.subrange(0, p)),
                trim(l.subrange(p + 1, l.len() as int)),
                default_user,
            ),
        }
    }
}

/// The parser's state after the lines `ls`, starting from `st`.
pub open spec fn parse_from(st: ParseState, ls: Seq<Seq<char>>, default_user: Seq<char>) -> ParseState
    decreases ls.len(),
{
    if ls.len() == 0 {
        st
    } else {
        parse_line(parse_from(st, ls.drop_last(), default_user), ls.last(), default_user)
    }
}

/// The parser's state at the start: no hosts.
pub open spec fn parse_start() -> ParseState {
    ParseState { hosts: Seq::empty(), current: None }
}

/// The parser's state after the lines `ls`.
pub open spec fn parse_scan(ls: Seq<Seq<char>>, default_user: Seq<char>) -> ParseState {
    parse_from(parse_start(), ls, default_user)
}

/// The hosts that `content` declares, in order (identifiers left at 0). The last
/// host is kept only if it is not `*` and has an address.
pub open spec fn parsed_hosts(content: Seq<char>, default_user: Seq<char>) -> Seq<HostView> {
    let st = parse_scan(lines_of(content), default_user);
    match st.current {
        Some(h) => if h.alias != "*"@ && h.hostname.len() > 0 {
            st.hosts.push(h)
        } else {
            st.hosts
        },
        None => st.hosts,
    }
}

/// The contents of the hosts of `hs`, identifiers left out.
pub open spec fn entries(hs: Seq<Host>) -> Seq<HostView> {
    hs.map_values(|h: Host| h@.without_id())
}

/// The contents of an optional host, its identifier left out.
pub open spec fn opt_entry(h: Option<Host>) -> Option<HostView> {
    match h {
        Some(x) => Some(x@.without_id()),
        None => None,
    }
}

/// Whether the keyword `k` (already lowercased) is `word`.
fn key_is(k: &Vec<char>, word: &str) -> (b: bool)
    ensures
        b == (k@ == word@),
{
    assert(k@.subrange(0, k@.len() as int) =~= k@);
    range_eq_str(k, 0, k.len(), word)
}

/// Reads the hosts of an `~/.ssh/config` text.
///
/// Hosts get fresh identifiers; `default_user` is the user of a host that has
/// no `User` line (the program passes the `USER` variable, or `root`).
pub fn parse_ssh_config(content: &str, default_user: &str) -> (hosts: Vec<Host>)
    ensures
        entries(hosts@) == parsed_hosts(content@, default_user@),
{
    let v = to_chars(content);
    let ranges = line_ranges(&v);
    let ghost ls = lines_of(v@);
    let ghost du = default_user@;
    let mut hosts: Vec<Host> = Vec::new();
    let mut current: Option<Host> = None;
    let mut k: usize = 0;
    while k < ranges.len()
        invariant
            v@ == content@,
            ls == lines_of(v@),
            du == default_user@,
            ranges@.len() == ls.len(),
            are_line_ranges(v@, ranges@),
            0 <= k <= ranges.len(),
            entries(hosts@) == parse_scan(ls.take(k as int), du).hosts,
            opt_entry(current) == parse_scan(ls.take(k as int), du).current,
        decreases ranges.len() - k,
    {
        let ghost st = parse_scan(ls.take(k as int), du);
        let ghost line = ls[k as int];
        proof {
            assert(ls.take(k + 1).drop_last() =~= ls.take(k as int));
            assert(ls.take(k + 1).last() == line);
            assert(parse_scan(ls.take(k + 1), du) == parse_line(st, line, du));
        }
        proof {
            lemma_line_range(v@, ranges@, k as int);
        }
        let (a, b) = ranges[k];
        let (ta, tb) = trim_range(&v, a, b);
        let ghost l = trim(line);
        if ta == tb || v[ta] == '#' {
            proof {
                if ta < tb {
                    assert(l[0] == v@[ta as int]);
                }
            }
        } else {
            match find_first_ws(&v, ta, tb) {
                None => {},
                Some(p) => {
                    let key_text = string_from(&v, ta, ta + p);
                    let key_lower = to_lowercase(key_text.as_str());
                    let key = to_chars(key_lower.as_str());
                    let (va, vb) = trim_range(&v, ta + p + 1, tb);
                    proof {
                        assert(l.subrange(0, p as int) =~= v@.subrange(ta as int, ta + p));
                        assert(l.subrange(p + 1, l.len() as int) =~= v@.subrange(ta + p + 1, tb as int));
                    }
                    let ghost value = v@.subrange(va as int, vb as int);
                    if key_is(&key, "host") {
                        let taken = current.take();
                        match taken {
                            Some(h) => {
                                if !str_eq(h.alias.as_str(), "*") {
                                    hosts.push(h);
                                    proof {
                                        assert(entries(hosts@) =~= st.hosts.push(h@.without_id()));
                                    }
                                }
                            },
                            None => {},
                        }
                        let alias = string_from(&v, va, vb);
                        let fresh = Host {
                            id: new_id(),
                            alias,
                            hostname: String::new(),
                            user: default_user.to_string(),
                            port: 22,
                            identity_file: None,
                            tags: Vec::new(),
                            description: None,
                        };
                        proof {
                            vstd::string::to_string_from_display_ensures_for_str(default_user, fresh.user);
                            assert(fresh.tags.deep_view() =~= Seq::<Seq<char>>::empty());
                            assert(fresh@.without_id() == HostView::fresh(value, Seq::empty(), du));
                        }
                        current = Some(fresh);
                    } else if key_is(&key, "hostname") {
                        let taken = current.take();
                        if let Some(mut h) = taken {
                            h.hostname = string_from(&v, va, vb);
                            current = Some(h);
                        }
                    } else if key_is(&key, "user") {
                        let taken = current.take();
                        if let Some(mut h) = taken {
                            h.user = string_from(&v, va, vb);
                            current = Some(h);
                        }
                    } else if key_is(&key, "port") {
                        let taken = current.take();
                        if let Some(mut h) = taken {
                            h.port = match parse_u16(&v, va, vb) {
                                Some(n) => n,
                                None => 22,
                            };
                            current = Some(h);
                        }
                    } else if key_is(&key, "identityfile") {
                        let taken = current.take();
                        if let Some(mut h) = taken {
                            h.identity_file = Some(string_from(&v, va, vb));
                            current = Some(h);
                        }
                    }
                },
            }
        }
        k = k + 1;
    }
    assert(ls.take(ranges.len() as int) =~= ls);
    let ghost st = parse_scan(ls, du);
    match current {
        Some(h) => {
            if !str_eq(h.alias.as_str(), "*") && !h.hostname.as_str().is_empty() {
                hosts.push(h);
                proof {
                    assert(entries(hosts@) =~= st.hosts.push(h@.without_id()));
                }
            }
        },
        None => {},
    }
    hosts
}

// ---------------------------------------------------------------------------
// Writing `~/.ssh/config`
// ---------------------------------------------------------------------------

/// The config blocks of the hosts `hs`, in order.
pub open spec fn blocks(hs: Seq<HostView>) -> Seq<Seq<char>> {
    hs.map_values(|h: HostView| config_block(h))
}

/// The views of the hosts of `hs`.
pub open spec fn views(hs: Seq<Host>) -> Seq<HostView> {
    hs.map_values(|h: Host| h@)
}

/// The hosts in plain `~/.ssh/config` format: their blocks, a blank line between two.
pub fn export_ssh_config(hosts: &[Host]) -> (s: String)
    ensures
        s@ == join(blocks(views(hosts@)), "\n\n"@),
{
    let mut parts: Vec<String> = Vec::new();
    let mut i: usize = 0;
    while i < hosts.len()
        invariant
            0 <= i <= hosts.len(),
            parts.deep_view() == blocks(views(hosts@)).take(i as int),
        decreases hosts.len() - i,
    {
        let b = hosts[i].to_ssh_config_block();
        let ghost old_parts = parts.deep_view();
        parts.push(b);
        proof {
            assert(parts.deep_view() =~= old_parts.push(b@));
            assert(blocks(views(hosts@)).take(i + 1) =~= blocks(views(hosts@)).take(i as int).push(b@));
        }
        i = i + 1;
    }
    assert(blocks(views(hosts@)).take(hosts@.len() as int) =~= blocks(views(hosts@)));
    join_strings(&parts, "\n\n")
}

/// The first line of a file this program writes.
pub open spec fn managed_header() -> Seq<char> {
    "# Gerenciado pelo NSR-SSH — não edite manualmente os blocos abaixo"@
}

/// The second line of a file this program writes.
pub open spec fn preserved_note() -> Seq<char> {
    "# Blocos fora desta seção são preservados"@
}

/// The line that opens the section of the vault's hosts.
pub open spec fn begin_marker() -> Seq<char> {
    "# BEGIN NSR-SSH VAULT"@
}

/// The line that closes the section of the vault's hosts.
pub open spec fn end_marker() -> Seq<char> {
    "# END NSR-SSH VAULT"@
}

/// The text by which a header line of this program starts.
pub open spec fn managed_prefix() -> Seq<char> {
    "# Gerenciado pelo NSR-SSH"@
}

/// `s` starts with `p`.
pub open spec fn starts_with(s: Seq<char>, p: Seq<char>) -> bool {
    p.len() <= s.len() && s.subrange(0, p.len() as int) == p
}

/// The lines for the vault's hosts: each block after a blank line.
pub open spec fn host_section(hs: Seq<HostView>) -> Seq<Seq<char>>
    decreases hs.len(),
{
    if hs.len() == 0 {
        Seq::empty()
    } else {
        host_section(hs.drop_last()) + seq![Seq::empty(), config_block(hs.last())]
    }
}

/// The lines of the file written for `hosts`, keeping the user's own text `existing`.
pub open spec fn rendered_lines(existing: Seq<char>, hs: Seq<HostView>) -> Seq<Seq<char>> {
    seq![managed_header(), preserved_note(), Seq::empty()] + (if existing.len() > 0 {
        seq![existing, Seq::empty()]
    } else {
        Seq::empty()
    }) + seq![begin_marker()] + host_section(hs) + seq![Seq::empty(), end_marker()]
}

/// The `~/.ssh/config` text for the vault: a header, the user's own text
/// `existing`, then the vault's hosts between the begin and end markers.
pub fn render_ssh_config(existing: &str, hosts: &[Host]) -> (s: String)
    ensures
        s@ == join(rendered_lines(existing@, views(hosts@)), "\n"@),
{
    let mut lines: Vec<String> = Vec::new();
    lines.push(String::from_str("# Gerenciado pelo NSR-SSH — não edite manualmente os blocos abaixo"));
    lines.push(String::from_str("# Blocos fora desta seção são preservados"));
    lines.push(String::new());
    if !existing.is_empty() {
        lines.push(existing.to_string());
        proof {
            vstd::string::to_string_from_display_ensures_for_str(existing, lines@[3]);
        }
        lines.push(String::new());
    }
    lines.push(String::from_str("# BEGIN NSR-SSH VAULT"));
    let ghost head = lines.deep_view();
    assert(head =~= seq![managed_header(), preserved_note(), Seq::empty()] + (if existing@.len() > 0 {
        seq![existing@, Seq::empty()]
    } else {
        Seq::empty()
    }) + seq![begin_marker()]);
    let mut i: usize = 0;
    while i < hosts.len()
        invariant
            0 <= i <= hosts.len(),
            lines.deep_view() == head + host_section(views(hosts@).take(i as int)),
        decreases hosts.len() - i,
    {
        let ghost before = lines.deep_view();
        lines.push(String::new());
        lines.push(hosts[i].to_ssh_config_block());
        proof {
            let t = views(hosts@).take(i + 1);
            assert(t.drop_last() =~= views(hosts@).take(i as int));
            assert(t.last() == hosts@[i as int]@);
            assert(lines.deep_view() =~= before + seq![Seq::<char>::empty(), config_block(hosts@[i as int]@)]);
        }
        i = i + 1;
    }
    lines.push(String::new());
    lines.push(String::from_str("# END NSR-SSH VAULT"));
    assert(views(hosts@).take(hosts@.len() as int) =~= views(hosts@));
    assert(lines.deep_view() =~= rendered_lines(existing@, views(hosts@)));
    join_strings(&lines, "\n")
}

/// The effect of one line on a reader that keeps the user's lines, given the
/// lines kept so far and whether it is inside the vault's section: the markers
/// open and close the section; lines inside it and the program's two header
/// lines are dropped.
pub open spec fn keep_step(st: (Seq<Seq<char>>, bool), line: Seq<char>) -> (Seq<Seq<char>>, bool) {
    let (kept, inside) = st;
    if trim(line) == begin_marker() {
        (kept, true)
    } else if trim(line) == end_marker() {
        (kept, false)
    } else if !inside && !starts_with(line, managed_prefix()) && trim(line) != preserved_note() {
        (kept.push(line), inside)
    } else {
        (kept, inside)
    }
}

/// The reader's state after the lines `ls`, starting from `st`.
pub open spec fn keep_from(st: (Seq<Seq<char>>, bool), ls: Seq<Seq<char>>) -> (Seq<Seq<char>>, bool)
    decreases ls.len(),
{
    if ls.len() == 0 {
        st
    } else {
        keep_step(keep_from(st, ls.drop_last()), ls.last())
    }
}

/// The lines kept, and whether the reader is inside the vault's section, after the lines `ls`.
pub open spec fn keep_scan(ls: Seq<Seq<char>>) -> (Seq<Seq<char>>, bool) {
    keep_from((Seq::empty(), false), ls)
}

/// The user's own part of a config text: the lines outside the vault's section,
/// without the program's header lines, joined and trimmed.
pub open spec fn preserved_text(content: Seq<char>) -> Seq<char> {
    trim(join(keep_scan(lines_of(content)).0, "\n"@))
}

/// Whether `v[lo..hi]` starts with the characters of `p`.
fn range_starts_with(v: &Vec<char>, lo: usize, hi: usize, p: &str) -> (b: bool)
    requires
        lo <= hi <= v.len(),
    ensures
        b == starts_with(v@.subrange(lo as int, hi as int), p@),
{
    let pc = to_chars(p);
    if pc.len() > hi - lo {
        return false;
    }
    let r = range_eq_str(v, lo, lo + pc.len(), p);
    assert(v@.subrange(lo as int, hi as int).subrange(0, pc@.len() as int) =~= v@.subrange(
        lo as int,
        lo + pc.len(),
    ));
    r
}

/// The part of a `~/.ssh/config` text that is not the vault's: what a sync must keep.
pub fn read_non_nsr_blocks(content: &str) -> (s: String)
    ensures
        s@ == preserved_text(content@),
{
    let v = to_chars(content);
    let ranges = line_ranges(&v);
    let ghost ls = lines_of(v@);
    let mut kept: Vec<String> = Vec::new();
    let mut inside = false;
    let mut k: usize = 0;
    while k < ranges.len()
        invariant
            v@ == content@,
            ls == lines_of(v@),
            ranges@.len() == ls.len(),
            are_line_ranges(v@, ranges@),
            0 <= k <= ranges.len(),
            kept.deep_view() == keep_scan(ls.take(k as int)).0,
            inside == keep_scan(ls.take(k as int)).1,
        decreases ranges.len() - k,
    {
        let ghost line = ls[k as int];
        proof {
            assert(ls.take(k + 1).drop_last() =~= ls.take(k as int));
            assert(ls.take(k + 1).last() == line);
        }
        proof {
            lemma_line_range(v@, ranges@, k as int);
        }
        let (a, b) = ranges[k];
        let (ta, tb) = trim_range(&v, a, b);
        if range_eq_str(&v, ta, tb, "# BEGIN NSR-SSH VAULT") {
            inside = true;
        } else if range_eq_str(&v, ta, tb, "# END NSR-SSH VAULT") {
            inside = false;
        } else if !inside && !range_starts_with(&v, a, b, "# Gerenciado pelo NSR-SSH") && !range_eq_str(
            &v,
            ta,
            tb,
            "# Blocos fora desta seção são preservados",
        ) {
            let ghost before = kept.deep_view();
            kept.push(string_from(&v, a, b));
            assert(kept.deep_view() =~= before.push(line));
        }
        k = k + 1;
    }
    assert(ls.take(ranges.len() as int) =~= ls);
    let joined = join_strings(&kept, "\n");
    let jc = to_chars(joined.as_str());
    let (a, b) = trim_range(&jc, 0, jc.len());
    assert(jc@.subrange(0, jc@.len() as int) =~= jc@);
    string_from(&jc, a, b)
}


/// The `~/.ssh/config` text a sync writes for `hosts`, given the file's current
/// text (`None` where there is no file yet): the user's part of the current
/// text is kept, the vault's section is written anew.
pub fn synced_config(current: Option<&str>, hosts: &[Host]) -> (s: String)
    ensures
        s@ == join(
            rendered_lines(
                match current {
                    Some(c) => preserved_text(c@),
                    None => Seq::empty(),
                },
                views(hosts@),
            ),
            "\n"@,
        ),
{
    let existing = match current {
        Some(c) => read_non_nsr_blocks(c),
        None => String::new(),
    };
    render_ssh_config(existing.as_str(), hosts)
}

} // verus!
