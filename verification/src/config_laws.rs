use vstd::prelude::*;
use crate::host::{config_block, HostView};
use crate::ssh_config::{
    begin_marker, end_marker, host_section, keep_from, keep_scan, keep_step, managed_header, managed_prefix,
    preserved_note, preserved_text, rendered_lines, starts_with,
    apply_keyword, blocks, parse_scan, parse_start, parsed_hosts, parse_from, parse_line, port_value, with_hostname, with_identity_file, with_port, with_user, ParseState,
};
use crate::text::{
    all_digits, decimal, decimal_value, digit_char, digit_value, is_digit, parse_unsigned_spec, parse_u16_spec,
    all_ascii, ascii_lowercase, first_ws, is_first_ws, lowercase, is_ws, join, lemma_trim_end_at, lemma_trim_start_at, line_scan, lines_of,
    no_newline, strip_cr, trim, trim_end, trim_start,
};

verus! {

// ---------------------------------------------------------------------------
// Joining and splitting lines
// ---------------------------------------------------------------------------

/// Joining two non-empty lists is joining each and putting `sep` between.
pub proof fn lemma_join_concat(a: Seq<Seq<char>>, b: Seq<Seq<char>>, sep: Seq<char>)
    requires
        a.len() > 0,
        b.len() > 0,
    ensures
        join(a + b, sep) == join(a, sep) + sep + join(b, sep),
    decreases b.len(),
{
    if b.len() == 1 {
        assert((a + b).drop_last() =~= a);
        assert((a + b).last() == b[0]);
    } else {
        let b2 = b.drop_last();
        assert((a + b).drop_last() =~= a + b2);
        assert((a + b).last() == b.last());
        lemma_join_concat(a, b2, sep);
        assert(join(a, sep) + sep + join(b2, sep) + sep + b.last() =~= join(a, sep) + sep + (join(b2, sep)
            + sep + b.last()));
    }
}

/// Scanning text without a line feed finishes no line and leaves the text pending.
proof fn lemma_scan_no_newline(x: Seq<char>)
    requires
        no_newline(x),
    ensures
        line_scan(x) == (Seq::<Seq<char>>::empty(), x),
    decreases x.len(),
{
    if x.len() > 0 {
        let d = x.drop_last();
        lemma_scan_no_newline(d);
        assert(x.last() == x[x.len() - 1]);
        assert(d.push(x.last()) =~= x);
    } else {
        assert(x =~= Seq::<char>::empty());
    }
}

/// Appending text without a line feed only extends the pending line.
proof fn lemma_scan_append(s: Seq<char>, t: Seq<char>)
    requires
        no_newline(t),
    ensures
        line_scan(s + t) == (line_scan(s).0, line_scan(s).1 + t),
    decreases t.len(),
{
    if t.len() == 0 {
        assert(s + t =~= s);
        assert(line_scan(s).1 + t =~= line_scan(s).1);
    } else {
        let t2 = t.drop_last();
        lemma_scan_append(s, t2);
        assert((s + t).drop_last() =~= s + t2);
        assert((s + t).last() == t.last());
        assert(t.last() == t[t.len() - 1]);
        assert(line_scan(s).1 + t2 + seq![t.last()] =~= line_scan(s).1 + t);
    }
}

/// The lines of `parts` joined by line feeds, when no part holds a line feed and
/// only the last part may end in a carriage return, up to the last part.
proof fn lemma_scan_join(parts: Seq<Seq<char>>)
    requires
        parts.len() > 0,
        forall|i: int| 0 <= i < parts.len() ==> no_newline(#[trigger] parts[i]),
        forall|i: int| 0 <= i < parts.len() - 1 ==> strip_cr(#[trigger] parts[i]) == parts[i],
    ensures
        line_scan(join(parts, "\n"@)) == (parts.drop_last(), parts.last()),
    decreases parts.len(),
{
    reveal_strlit("\n");
    if parts.len() == 1 {
        lemma_scan_no_newline(parts[0]);
        assert(parts.drop_last() =~= Seq::<Seq<char>>::empty());
    } else {
        let p2 = parts.drop_last();
        assert forall|i: int| 0 <= i < p2.len() implies no_newline(#[trigger] p2[i]) by {
            assert(p2[i] == parts[i]);
        }
        assert forall|i: int| 0 <= i < p2.len() - 1 implies strip_cr(#[trigger] p2[i]) == p2[i] by {
            assert(p2[i] == parts[i]);
        }
        lemma_scan_join(p2);
        let j2 = join(p2, "\n"@);
        let with_nl = j2.push('\n');
        assert(with_nl.drop_last() =~= j2);
        assert(strip_cr(p2.last()) == p2.last()) by {
            assert(p2.last() == parts[parts.len() - 2]);
        }
        assert(p2.drop_last().push(p2.last()) =~= p2);
        assert(line_scan(with_nl) == (p2, Seq::<char>::empty()));
        assert(join(parts, "\n"@) =~= with_nl + parts.last());
        assert(no_newline(parts.last())) by {
            assert(parts.last() == parts[parts.len() - 1]);
        }
        lemma_scan_append(with_nl, parts.last());
        assert(Seq::<char>::empty() + parts.last() =~= parts.last());
    }
}

/// Splitting the lines of text made by joining lines gives those lines back,
/// when no line holds a line feed, none but the last ends in a carriage return,
/// and the last is not empty.
pub proof fn lemma_lines_of_join(parts: Seq<Seq<char>>)
    requires
        forall|i: int| 0 <= i < parts.len() ==> no_newline(#[trigger] parts[i]),
        forall|i: int| 0 <= i < parts.len() - 1 ==> strip_cr(#[trigger] parts[i]) == parts[i],
        parts.len() > 0 ==> parts.last().len() > 0,
    ensures
        lines_of(join(parts, "\n"@)) == parts,
{
    if parts.len() == 0 {
        assert(join(parts, "\n"@) =~= Seq::<char>::empty());
        assert(parts =~= Seq::<Seq<char>>::empty());
    } else {
        lemma_scan_join(parts);
        assert(parts.drop_last().push(parts.last()) =~= parts);
    }
}

// ---------------------------------------------------------------------------
// Trimming
// ---------------------------------------------------------------------------

/// Trimming the start never lengthens a text.
proof fn lemma_trim_start_len(s: Seq<char>)
    ensures
        trim_start(s).len() <= s.len(),
    decreases s.len(),
{
    if s.len() > 0 && is_ws(s[0]) {
        lemma_trim_start_len(s.drop_first());
    }
}

/// Trimming the end never lengthens a text.
proof fn lemma_trim_end_len(s: Seq<char>)
    ensures
        trim_end(s).len() <= s.len(),
    decreases s.len(),
{
    if s.len() > 0 && is_ws(s.last()) {
        lemma_trim_end_len(s.drop_last());
    }
}

/// A non-empty text that trimming leaves as it is neither starts nor ends with whitespace.
pub proof fn lemma_trimmed_ends(v: Seq<char>)
    requires
        v.len() > 0,
        trim(v) == v,
    ensures
        !is_ws(v[0]),
        !is_ws(v.last()),
{
    if is_ws(v[0]) {
        lemma_trim_start_len(v.drop_first());
        lemma_trim_end_len(trim_start(v));
        assert(trim(v).len() < v.len());
    }
    assert(trim_start(v) == v);
    if is_ws(v.last()) {
        lemma_trim_end_len(v.drop_last());
        assert(trim(v).len() < v.len());
    }
}

/// Trimming the end of a text that starts with a non-whitespace character keeps that character.
proof fn lemma_trim_end_keeps_first(s: Seq<char>)
    requires
        s.len() > 0,
        !is_ws(s[0]),
    ensures
        trim_end(s).len() > 0,
        trim_end(s)[0] == s[0],
    decreases s.len(),
{
    if is_ws(s.last()) {
        let d = s.drop_last();
        assert(d.len() > 0);
        assert(d[0] == s[0]);
        lemma_trim_end_keeps_first(d);
    }
}

/// Whitespace indentation, a keyword, one space and a value: trimming drops the
/// indentation, the first whitespace is the space, and the value stays whole.
pub proof fn lemma_keyword_line(indent: Seq<char>, kw: Seq<char>, v: Seq<char>)
    requires
        forall|i: int| 0 <= i < indent.len() ==> is_ws(#[trigger] indent[i]),
        kw.len() > 0,
        forall|i: int| 0 <= i < kw.len() ==> !is_ws(#[trigger] kw[i]),
        v.len() > 0,
        trim(v) == v,
    ensures
        ({
            let l = trim(indent + kw + " "@ + v);
            &&& l == kw + " "@ + v
            &&& l.len() > 0
            &&& l[0] == kw[0]
            &&& first_ws(l) == Some(kw.len() as int)
            &&& l.subrange(0, kw.len() as int) == kw
            &&& trim(l.subrange(kw.len() as int + 1, l.len() as int)) == v
        }),
{
    reveal_strlit(" ");
    let line = indent + kw + " "@ + v;
    let l = kw + " "@ + v;
    let n = indent.len() as int;
    assert forall|i: int| 0 <= i < n implies is_ws(line[i]) by {
        assert(line[i] == indent[i]);
    }
    assert(line[n] == kw[0]);
    lemma_trim_start_at(line, n);
    assert(line.subrange(n, line.len() as int) =~= l);
    lemma_trimmed_ends(v);
    assert(l.last() == v.last());
    lemma_trim_end_at(l, l.len() as int);
    assert(l.subrange(0, l.len() as int) =~= l);
    let k = kw.len() as int;
    assert(l[k] == ' ');
    assert(is_first_ws(l, k)) by {
        assert forall|j: int| 0 <= j < k implies !is_ws(l[j]) by {
            assert(l[j] == kw[j]);
        }
    }
    let c = choose|i: int| is_first_ws(l, i);
    assert(c == k) by {
        if c < k {
            assert(l[c] == kw[c]);
        }
    }
    assert(l.subrange(0, k) =~= kw);
    assert(l.subrange(k + 1, l.len() as int) =~= v);
}

/// Whitespace indentation, then `#` and a comment: trimming gives text that starts with `#`.
pub proof fn lemma_comment_line(indent: Seq<char>, rest: Seq<char>)
    requires
        forall|i: int| 0 <= i < indent.len() ==> is_ws(#[trigger] indent[i]),
    ensures
        trim(indent + "#"@ + rest).len() > 0,
        trim(indent + "#"@ + rest)[0] == '#',
{
    reveal_strlit("#");
    let line = indent + "#"@ + rest;
    let n = indent.len() as int;
    assert forall|i: int| 0 <= i < n implies is_ws(line[i]) by {
        assert(line[i] == indent[i]);
    }
    assert(line[n] == '#');
    lemma_trim_start_at(line, n);
    let t = line.subrange(n, line.len() as int);
    assert(t[0] == '#');
    lemma_trim_end_keeps_first(t);
}

// ---------------------------------------------------------------------------
// Numbers
// ---------------------------------------------------------------------------

/// A digit's character is a digit of that value, neither whitespace nor a sign.
proof fn lemma_digit_char(d: nat)
    requires
        d < 10,
    ensures
        is_digit(digit_char(d)),
        digit_value(digit_char(d)) == d,
        !is_ws(digit_char(d)),
        digit_char(d) != '+',
{
    assert(('0' as u32) == 48);
    assert(digit_char(d) as u32 == 48 + d);
}

/// The numeral of a number is a non-empty run of digits worth that number.
pub proof fn lemma_decimal(n: nat)
    ensures
        decimal(n).len() > 0,
        all_digits(decimal(n)),
        decimal_value(decimal(n)) == n,
        forall|i: int| 0 <= i < decimal(n).len() ==> !is_ws(#[trigger] decimal(n)[i]),
        decimal(n)[0] != '+',
    decreases n,
{
    if n < 10 {
        lemma_digit_char(n);
        assert(decimal(n) =~= seq![digit_char(n)]);
        assert(decimal(n).drop_last() =~= Seq::<char>::empty());
        reveal_with_fuel(decimal_value, 2);
    } else {
        let h = decimal(n / 10);
        lemma_decimal(n / 10);
        lemma_digit_char(n % 10);
        let s = decimal(n);
        assert(s == h.push(digit_char(n % 10)));
        assert(s.drop_last() =~= h);
        assert(all_digits(s)) by {
            assert forall|i: int| 0 <= i < s.len() implies is_digit(#[trigger] s[i]) by {
                if i < h.len() {
                    assert(s[i] == h[i]);
                }
            }
        }
        assert forall|i: int| 0 <= i < s.len() implies !is_ws(#[trigger] s[i]) by {
            if i < h.len() {
                assert(s[i] == h[i]);
            }
        }
        assert(s[0] == h[0]);
    }
}

/// Reading back the numeral of a number no larger than `max` gives the number.
pub proof fn lemma_parse_decimal(n: nat, max: nat)
    requires
        n <= max,
    ensures
        parse_unsigned_spec(decimal(n), max) == Some(n),
        trim(decimal(n)) == decimal(n),
{
    lemma_decimal(n);
    let s = decimal(n);
    lemma_trim_start_at(s, 0);
    assert(s.subrange(0, s.len() as int) =~= s);
    lemma_trim_end_at(s, s.len() as int);
}

/// Reading back the numeral of a port gives the port.
pub proof fn lemma_port_roundtrip(p: u16)
    ensures
        parse_u16_spec(decimal(p as nat)) == Some(p),
        trim(decimal(p as nat)) == decimal(p as nat),
{
    lemma_parse_decimal(p as nat, 0xffff);
}

// ---------------------------------------------------------------------------
// A host's block, line by line
// ---------------------------------------------------------------------------

/// A keyword line: indentation, the keyword, one space, the value.
pub open spec fn kw_line(indent: Seq<char>, kw: Seq<char>, v: Seq<char>) -> Seq<char> {
    indent + kw + " "@ + v
}

/// The lines of a host's block in `~/.ssh/config` format.
pub open spec fn block_lines(h: HostView) -> Seq<Seq<char>> {
    seq![
        kw_line(Seq::empty(), "Host"@, h.alias),
        kw_line("    "@, "HostName"@, h.hostname),
        kw_line("    "@, "User"@, h.user),
        kw_line("    "@, "Port"@, decimal(h.port as nat)),
    ] + match h.identity_file {
        Some(f) => seq![kw_line("    "@, "IdentityFile"@, f)],
        None => Seq::empty(),
    } + match h.description {
        Some(d) => seq!["    "@ + "#"@ + " "@ + d],
        None => Seq::empty(),
    }
}

/// Joining four parts puts the separator between each two.
proof fn lemma_join_four(x0: Seq<char>, x1: Seq<char>, x2: Seq<char>, x3: Seq<char>, sep: Seq<char>)
    ensures
        join(seq![x0, x1, x2, x3], sep) == x0 + sep + x1 + sep + x2 + sep + x3,
{
    let b = seq![x0, x1, x2, x3];
    reveal_with_fuel(join, 4);
    assert(b.drop_last() =~= seq![x0, x1, x2]);
    assert(b.drop_last().drop_last() =~= seq![x0, x1]);
    assert(b.drop_last().drop_last().drop_last() =~= seq![x0]);
}

/// The literals a block is written with, split into indent, keyword and space.
proof fn lemma_block_literals()
    ensures
        "Host "@ == Seq::<char>::empty() + "Host"@ + " "@,
        "\n    HostName "@ == "\n"@ + ("    "@ + "HostName"@ + " "@),
        "\n    User "@ == "\n"@ + ("    "@ + "User"@ + " "@),
        "\n    Port "@ == "\n"@ + ("    "@ + "Port"@ + " "@),
        "\n    IdentityFile "@ == "\n"@ + ("    "@ + "IdentityFile"@ + " "@),
        "\n    # "@ == "\n"@ + ("    "@ + "#"@ + " "@),
{
    reveal_strlit("Host ");
    reveal_strlit("Host");
    reveal_strlit(" ");
    reveal_strlit("    ");
    reveal_strlit("\n    HostName ");
    reveal_strlit("HostName");
    reveal_strlit("\n    User ");
    reveal_strlit("User");
    reveal_strlit("\n    Port ");
    reveal_strlit("Port");
    reveal_strlit("\n    IdentityFile ");
    reveal_strlit("IdentityFile");
    reveal_strlit("\n    # ");
    reveal_strlit("#");
    reveal_strlit("\n");
    assert("Host "@ =~= Seq::<char>::empty() + "Host"@ + " "@);
    assert("\n    HostName "@ =~= "\n"@ + ("    "@ + "HostName"@ + " "@));
    assert("\n    User "@ =~= "\n"@ + ("    "@ + "User"@ + " "@));
    assert("\n    Port "@ =~= "\n"@ + ("    "@ + "Port"@ + " "@));
    assert("\n    IdentityFile "@ =~= "\n"@ + ("    "@ + "IdentityFile"@ + " "@));
    assert("\n    # "@ =~= "\n"@ + ("    "@ + "#"@ + " "@));
}

/// `sep` and a keyword line is the line's lead-in, prefixed by `sep`, and the value.
proof fn lemma_prefixed(sep: Seq<char>, lead: Seq<char>, v: Seq<char>)
    ensures
        sep + (lead + v) == (sep + lead) + v,
{
    assert(sep + (lead + v) =~= (sep + lead) + v);
}

/// A host's block is its lines joined by line feeds.
pub proof fn lemma_block_lines(h: HostView)
    ensures
        config_block(h) == join(block_lines(h), "\n"@),
{
    lemma_block_literals();
    let nl = "\n"@;
    let l0 = kw_line(Seq::empty(), "Host"@, h.alias);
    let l1 = kw_line("    "@, "HostName"@, h.hostname);
    let l2 = kw_line("    "@, "User"@, h.user);
    let l3 = kw_line("    "@, "Port"@, decimal(h.port as nat));
    let b = seq![l0, l1, l2, l3];
    lemma_join_four(l0, l1, l2, l3, nl);
    lemma_prefixed(nl, "    "@ + "HostName"@ + " "@, h.hostname);
    lemma_prefixed(nl, "    "@ + "User"@ + " "@, h.user);
    lemma_prefixed(nl, "    "@ + "Port"@ + " "@, decimal(h.port as nat));
    let base = "Host "@ + h.alias + "\n    HostName "@ + h.hostname + "\n    User "@ + h.user + "\n    Port "@
        + decimal(h.port as nat);
    assert(l0 + nl + l1 + nl + l2 + nl + l3 =~= l0 + (nl + l1) + (nl + l2) + (nl + l3));
    assert(join(b, nl) == base);
    let idl: Seq<Seq<char>> = match h.identity_file {
        Some(f) => seq![kw_line("    "@, "IdentityFile"@, f)],
        None => Seq::empty(),
    };
    let dl: Seq<Seq<char>> = match h.description {
        Some(d) => seq!["    "@ + "#"@ + " "@ + d],
        None => Seq::empty(),
    };
    let idt: Seq<char> = match h.identity_file {
        Some(f) => "\n    IdentityFile "@ + f,
        None => Seq::empty(),
    };
    let dt: Seq<char> = match h.description {
        Some(d) => "\n    # "@ + d,
        None => Seq::empty(),
    };
    if idl.len() > 0 {
        let f = h.identity_file->0;
        lemma_join_concat(b, idl, nl);
        lemma_prefixed(nl, "    "@ + "IdentityFile"@ + " "@, f);
        assert(join(b + idl, nl) =~= base + idt);
    } else {
        assert(b + idl =~= b);
        assert(base + idt =~= base);
    }
    assert(join(b + idl, nl) == base + idt);
    if dl.len() > 0 {
        let d = h.description->0;
        lemma_join_concat(b + idl, dl, nl);
        lemma_prefixed(nl, "    "@ + "#"@ + " "@, d);
        assert(join(b + idl + dl, nl) =~= base + idt + dt);
    } else {
        assert(b + idl + dl =~= b + idl);
        assert(base + idt + dt =~= base + idt);
    }
    assert(block_lines(h) == b + idl + dl);
}

// ---------------------------------------------------------------------------
// Reading a host's block back
// ---------------------------------------------------------------------------

/// A value that survives a round through the config file: not empty, without
/// surrounding whitespace, on one line.
pub open spec fn field_ok(v: Seq<char>) -> bool {
    v.len() > 0 && trim(v) == v && no_newline(v)
}

/// A host whose block reads back as the host: every field survives the round,
/// the alias is not the `*` pattern, and the description is on one line and
/// does not end in a carriage return.
pub open spec fn exportable(h: HostView) -> bool {
    &&& field_ok(h.alias)
    &&& h.alias != "*"@
    &&& field_ok(h.hostname)
    &&& field_ok(h.user)
    &&& (h.identity_file matches Some(f) ==> field_ok(f))
    &&& (h.description matches Some(d) ==> no_newline(d) && strip_cr(d) == d)
}

/// Lowercasing the keywords of the format gives their lowercase spelling.
proof fn lemma_keywords_lowercase()
    ensures
        lowercase("Host"@) == "host"@,
        lowercase("HostName"@) == "hostname"@,
        lowercase("User"@) == "user"@,
        lowercase("Port"@) == "port"@,
        lowercase("IdentityFile"@) == "identityfile"@,
{
    reveal_strlit("Host");
    reveal_strlit("host");
    reveal_strlit("HostName");
    reveal_strlit("hostname");
    reveal_strlit("User");
    reveal_strlit("user");
    reveal_strlit("Port");
    reveal_strlit("port");
    reveal_strlit("IdentityFile");
    reveal_strlit("identityfile");
    assert(all_ascii("Host"@));
    assert(all_ascii("HostName"@));
    assert(all_ascii("User"@));
    assert(all_ascii("Port"@));
    assert(all_ascii("IdentityFile"@));
    assert(ascii_lowercase("Host"@) =~= "host"@);
    assert(ascii_lowercase("HostName"@) =~= "hostname"@);
    assert(ascii_lowercase("User"@) =~= "user"@);
    assert(ascii_lowercase("Port"@) =~= "port"@);
    assert(ascii_lowercase("IdentityFile"@) =~= "identityfile"@);
}

/// What the file keeps of a host: everything but its identifier, tags and description.
pub open spec fn stripped(h: HostView) -> HostView {
    HostView { id: 0, tags: Seq::empty(), description: None, ..h }
}

/// The finished hosts once the current one is finished.
pub open spec fn flushed(st: ParseState) -> Seq<HostView> {
    match st.current {
        Some(c) => if c.alias != "*"@ {
            st.hosts.push(c)
        } else {
            st.hosts
        },
        None => st.hosts,
    }
}

/// The keywords hold no whitespace, do not start a comment, and lowercase to distinct words.
proof fn lemma_keyword_chars()
    ensures
        forall|i: int| 0 <= i < "Host"@.len() ==> !is_ws(#[trigger] "Host"@[i]),
        forall|i: int| 0 <= i < "HostName"@.len() ==> !is_ws(#[trigger] "HostName"@[i]),
        forall|i: int| 0 <= i < "User"@.len() ==> !is_ws(#[trigger] "User"@[i]),
        forall|i: int| 0 <= i < "Port"@.len() ==> !is_ws(#[trigger] "Port"@[i]),
        forall|i: int| 0 <= i < "IdentityFile"@.len() ==> !is_ws(#[trigger] "IdentityFile"@[i]),
        "Host"@.len() > 0 && "Host"@[0] != '#',
        "HostName"@.len() > 0 && "HostName"@[0] != '#',
        "User"@.len() > 0 && "User"@[0] != '#',
        "Port"@.len() > 0 && "Port"@[0] != '#',
        "IdentityFile"@.len() > 0 && "IdentityFile"@[0] != '#',
        forall|i: int| 0 <= i < "    "@.len() ==> is_ws(#[trigger] "    "@[i]),
        "host"@ != "hostname"@,
        "host"@ != "user"@,
        "host"@ != "port"@,
        "host"@ != "identityfile"@,
        "hostname"@ != "user"@,
        "hostname"@ != "port"@,
        "hostname"@ != "identityfile"@,
        "user"@ != "port"@,
        "user"@ != "identityfile"@,
        "port"@ != "identityfile"@,
{
    reveal_strlit("Host");
    reveal_strlit("HostName");
    reveal_strlit("User");
    reveal_strlit("Port");
    reveal_strlit("IdentityFile");
    reveal_strlit("    ");
    reveal_strlit("host");
    reveal_strlit("hostname");
    reveal_strlit("user");
    reveal_strlit("port");
    reveal_strlit("identityfile");
    assert("host"@.len() != "hostname"@.len());
    assert("host"@.len() != "identityfile"@.len());
    assert("hostname"@.len() != "user"@.len());
    assert("hostname"@.len() != "port"@.len());
    assert("hostname"@.len() != "identityfile"@.len());
    assert("user"@.len() != "identityfile"@.len());
    assert("port"@.len() != "identityfile"@.len());
    assert("host"@[0] != "user"@[0]);
    assert("host"@[0] != "port"@[0]);
    assert("user"@[0] != "port"@[0]);
}

/// A keyword line acts as its lowercased keyword with its value.
proof fn lemma_parse_kw_line(st: ParseState, indent: Seq<char>, kw: Seq<char>, v: Seq<char>, du: Seq<char>)
    requires
        forall|i: int| 0 <= i < indent.len() ==> is_ws(#[trigger] indent[i]),
        kw.len() > 0,
        kw[0] != '#',
        forall|i: int| 0 <= i < kw.len() ==> !is_ws(#[trigger] kw[i]),
        v.len() > 0,
        trim(v) == v,
    ensures
        parse_line(st, kw_line(indent, kw, v), du) == apply_keyword(st, lowercase(kw), v, du),
{
    lemma_keyword_line(indent, kw, v);
}

/// Reading one more line is one more step of the parser.
proof fn lemma_parse_push(st: ParseState, ls: Seq<Seq<char>>, x: Seq<char>, du: Seq<char>)
    ensures
        parse_from(st, ls.push(x), du) == parse_line(parse_from(st, ls, du), x, du),
{
    assert(ls.push(x).drop_last() =~= ls);
}

/// Reading the lines `a` then the lines `b` is reading `b` from where `a` left off.
pub proof fn lemma_parse_concat(st: ParseState, a: Seq<Seq<char>>, b: Seq<Seq<char>>, du: Seq<char>)
    ensures
        parse_from(st, a + b, du) == parse_from(parse_from(st, a, du), b, du),
    decreases b.len(),
{
    if b.len() == 0 {
        assert(a + b =~= a);
    } else {
        let b2 = b.drop_last();
        lemma_parse_concat(st, a, b2, du);
        assert((a + b).drop_last() =~= a + b2);
        assert((a + b).last() == b.last());
    }
}

/// Reading a host's block finishes the current host and leaves the host,
/// stripped of what the file does not keep, as the current one.
pub proof fn lemma_parse_block(st: ParseState, h: HostView, du: Seq<char>)
    requires
        exportable(h),
    ensures
        parse_from(st, block_lines(h), du) == (ParseState { hosts: flushed(st), current: Some(stripped(h)) }),
{
    lemma_keyword_chars();
    lemma_keywords_lowercase();
    lemma_port_roundtrip(h.port);
    lemma_decimal(h.port as nat);
    let e = Seq::<char>::empty();
    let l0 = kw_line(e, "Host"@, h.alias);
    let l1 = kw_line("    "@, "HostName"@, h.hostname);
    let l2 = kw_line("    "@, "User"@, h.user);
    let l3 = kw_line("    "@, "Port"@, decimal(h.port as nat));
    let s0 = parse_from(st, seq![l0], du);
    assert(seq![l0] =~= Seq::<Seq<char>>::empty().push(l0));
    lemma_parse_push(st, Seq::empty(), l0, du);
    lemma_parse_kw_line(st, e, "Host"@, h.alias, du);
    let s1 = parse_line(s0, l1, du);
    lemma_parse_kw_line(s0, "    "@, "HostName"@, h.hostname, du);
    let s2 = parse_line(s1, l2, du);
    lemma_parse_kw_line(s1, "    "@, "User"@, h.user, du);
    let s3 = parse_line(s2, l3, du);
    lemma_parse_kw_line(s2, "    "@, "Port"@, decimal(h.port as nat), du);
    let b = seq![l0, l1, l2, l3];
    assert(b =~= seq![l0].push(l1).push(l2).push(l3));
    lemma_parse_push(st, seq![l0], l1, du);
    lemma_parse_push(st, seq![l0].push(l1), l2, du);
    lemma_parse_push(st, seq![l0].push(l1).push(l2), l3, du);
    assert(parse_from(st, b, du) == s3);
    let base = HostView::fresh(h.alias, e, du);
    assert(s3 == ParseState {
        hosts: flushed(st),
        current: Some(with_port(with_user(with_hostname(base, h.hostname), h.user), h.port)),
    });
    let idl: Seq<Seq<char>> = match h.identity_file {
        Some(f) => seq![kw_line("    "@, "IdentityFile"@, f)],
        None => Seq::empty(),
    };
    let dl: Seq<Seq<char>> = match h.description {
        Some(d) => seq!["    "@ + "#"@ + " "@ + d],
        None => Seq::empty(),
    };
    lemma_parse_concat(st, b, idl, du);
    let s4 = parse_from(s3, idl, du);
    match h.identity_file {
        Some(f) => {
            let l4 = kw_line("    "@, "IdentityFile"@, f);
            assert(idl =~= Seq::<Seq<char>>::empty().push(l4));
            lemma_parse_push(s3, Seq::empty(), l4, du);
            lemma_parse_kw_line(s3, "    "@, "IdentityFile"@, f, du);
        },
        None => {},
    }
    assert(s4 == ParseState { hosts: flushed(st), current: Some(stripped(h)) });
    lemma_parse_concat(st, b + idl, dl, du);
    match h.description {
        Some(d) => {
            let l5 = "    "@ + "#"@ + " "@ + d;
            assert(dl =~= Seq::<Seq<char>>::empty().push(l5));
            lemma_parse_push(s4, Seq::empty(), l5, du);
            assert(l5 =~= "    "@ + "#"@ + (" "@ + d));
            lemma_comment_line("    "@, " "@ + d);
        },
        None => {},
    }
    assert(block_lines(h) == b + idl + dl);
}

// ---------------------------------------------------------------------------
// Reading an export back
// ---------------------------------------------------------------------------

/// A line that a round through the file keeps as it is: no line feed, and no
/// carriage return at its end.
pub open spec fn clean_line(x: Seq<char>) -> bool {
    no_newline(x) && strip_cr(x) == x
}

/// The lines of an export of the hosts `hs`: their blocks' lines, a blank line between two blocks.
pub open spec fn export_lines(hs: Seq<HostView>) -> Seq<Seq<char>>
    decreases hs.len(),
{
    if hs.len() == 0 {
        Seq::empty()
    } else if hs.len() == 1 {
        block_lines(hs[0])
    } else {
        export_lines(hs.drop_last()) + seq![Seq::<char>::empty()] + block_lines(hs.last())
    }
}

/// A keyword line of one-line parts is a clean, non-empty line.
proof fn lemma_clean_kw_line(indent: Seq<char>, kw: Seq<char>, v: Seq<char>)
    requires
        no_newline(indent),
        no_newline(kw),
        v.len() > 0,
        no_newline(v),
        !is_ws(v.last()),
    ensures
        clean_line(kw_line(indent, kw, v)),
        kw_line(indent, kw, v).len() > 0,
{
    reveal_strlit(" ");
    let l = kw_line(indent, kw, v);
    assert forall|i: int| 0 <= i < l.len() implies l[i] != '\n' by {
        if i < indent.len() {
            assert(l[i] == indent[i]);
        } else if i < indent.len() + kw.len() {
            assert(l[i] == kw[i - indent.len()]);
        } else if i == indent.len() + kw.len() {
            assert(l[i] == ' ');
        } else {
            assert(l[i] == v[i - indent.len() - kw.len() - 1]);
        }
    }
    assert(l.last() == v.last());
    assert(is_ws('\r'));
}

/// The literals of the format hold no line feed.
proof fn lemma_literals_one_line()
    ensures
        no_newline("    "@),
        no_newline("Host"@),
        no_newline("HostName"@),
        no_newline("User"@),
        no_newline("Port"@),
        no_newline("IdentityFile"@),
        no_newline("#"@),
        no_newline(" "@),
        no_newline(Seq::<char>::empty()),
{
    reveal_strlit("    ");
    reveal_strlit("Host");
    reveal_strlit("HostName");
    reveal_strlit("User");
    reveal_strlit("Port");
    reveal_strlit("IdentityFile");
    reveal_strlit("#");
    reveal_strlit(" ");
}

/// The lines of an exportable host's block are clean and the last is not empty.
proof fn lemma_block_clean(h: HostView)
    requires
        exportable(h),
    ensures
        forall|i: int| 0 <= i < block_lines(h).len() ==> clean_line(#[trigger] block_lines(h)[i]),
        block_lines(h).len() > 0,
        block_lines(h).last().len() > 0,
{
    lemma_literals_one_line();
    lemma_trimmed_ends(h.alias);
    lemma_trimmed_ends(h.hostname);
    lemma_trimmed_ends(h.user);
    lemma_decimal(h.port as nat);
    let dp = decimal(h.port as nat);
    assert(no_newline(dp)) by {
        assert forall|i: int| 0 <= i < dp.len() implies dp[i] != '\n' by {
            assert(!is_ws(dp[i]));
            assert(is_ws('\n'));
        }
    }
    assert(!is_ws(dp.last())) by {
        assert(dp.last() == dp[dp.len() - 1]);
    }
    let e = Seq::<char>::empty();
    lemma_clean_kw_line(e, "Host"@, h.alias);
    lemma_clean_kw_line("    "@, "HostName"@, h.hostname);
    lemma_clean_kw_line("    "@, "User"@, h.user);
    lemma_clean_kw_line("    "@, "Port"@, dp);
    let b = seq![
        kw_line(e, "Host"@, h.alias),
        kw_line("    "@, "HostName"@, h.hostname),
        kw_line("    "@, "User"@, h.user),
        kw_line("    "@, "Port"@, dp),
    ];
    let idl: Seq<Seq<char>> = match h.identity_file {
        Some(f) => seq![kw_line("    "@, "IdentityFile"@, f)],
        None => Seq::empty(),
    };
    let dl: Seq<Seq<char>> = match h.description {
        Some(d) => seq!["    "@ + "#"@ + " "@ + d],
        None => Seq::empty(),
    };
    match h.identity_file {
        Some(f) => {
            lemma_trimmed_ends(f);
            lemma_clean_kw_line("    "@, "IdentityFile"@, f);
        },
        None => {},
    }
    match h.description {
        Some(d) => {
            reveal_strlit("    ");
            reveal_strlit("#");
            reveal_strlit(" ");
            let l5 = "    "@ + "#"@ + " "@ + d;
            assert forall|i: int| 0 <= i < l5.len() implies l5[i] != '\n' by {
                if i >= 6 {
                    assert(l5[i] == d[i - 6]);
                }
            }
            if d.len() > 0 {
                assert(l5.last() == d.last());
                assert(strip_cr(l5) == l5);
            } else {
                assert(l5.last() == ' ');
            }
        },
        None => {},
    }
    let all = b + idl + dl;
    assert(block_lines(h) == all);
    assert forall|i: int| 0 <= i < all.len() implies clean_line(#[trigger] all[i]) by {
        if i < 4 {
            assert(all[i] == b[i]);
        } else if i < 4 + idl.len() {
            assert(all[i] == idl[i - 4]);
        } else {
            assert(all[i] == dl[i - 4 - idl.len()]);
        }
    }
    assert(all.last().len() > 0) by {
        if dl.len() > 0 {
            assert(all.last() == dl[0]);
            reveal_strlit("    ");
        } else if idl.len() > 0 {
            assert(all.last() == idl[0]);
        } else {
            assert(all.last() == b[3]);
        }
    }
}

/// The export's lines are clean, and the last is not empty.
proof fn lemma_export_lines_clean(hs: Seq<HostView>)
    requires
        forall|i: int| 0 <= i < hs.len() ==> exportable(#[trigger] hs[i]),
    ensures
        forall|i: int| 0 <= i < export_lines(hs).len() ==> clean_line(#[trigger] export_lines(hs)[i]),
        hs.len() > 0 ==> export_lines(hs).len() > 0 && export_lines(hs).last().len() > 0,
    decreases hs.len(),
{
    if hs.len() == 1 {
        lemma_block_clean(hs[0]);
    } else if hs.len() > 1 {
        let h2 = hs.drop_last();
        assert forall|i: int| 0 <= i < h2.len() implies exportable(#[trigger] h2[i]) by {
            assert(h2[i] == hs[i]);
        }
        lemma_export_lines_clean(h2);
        assert(exportable(hs[hs.len() - 1]));
        lemma_block_clean(hs.last());
        let a = export_lines(h2);
        let m = seq![Seq::<char>::empty()];
        let bl = block_lines(hs.last());
        let all = a + m + bl;
        assert(clean_line(Seq::<char>::empty())) by {
            lemma_literals_one_line();
        }
        assert forall|i: int| 0 <= i < all.len() implies clean_line(#[trigger] all[i]) by {
            if i < a.len() {
                assert(all[i] == a[i]);
            } else if i == a.len() {
                assert(all[i] == Seq::<char>::empty());
            } else {
                assert(all[i] == bl[i - a.len() - 1]);
            }
        }
        assert(all.last() == bl.last());
    }
}

/// The export text is the export's lines joined by line feeds.
proof fn lemma_export_text(hs: Seq<HostView>)
    ensures
        join(blocks(hs), "\n\n"@) == join(export_lines(hs), "\n"@),
    decreases hs.len(),
{
    reveal_strlit("\n\n");
    reveal_strlit("\n");
    let nl = "\n"@;
    if hs.len() == 0 {
        assert(blocks(hs) =~= Seq::<Seq<char>>::empty());
    } else if hs.len() == 1 {
        assert(blocks(hs) =~= seq![config_block(hs[0])]);
        lemma_block_lines(hs[0]);
    } else {
        let h2 = hs.drop_last();
        lemma_export_text(h2);
        assert(blocks(hs).drop_last() =~= blocks(h2));
        assert(blocks(hs).last() == config_block(hs.last()));
        lemma_block_lines(hs.last());
        lemma_block_clean_len(hs.last());
        lemma_export_len(h2);
        let a = export_lines(h2);
        let m = seq![Seq::<char>::empty()];
        let bl = block_lines(hs.last());
        lemma_join_concat(a + m, bl, nl);
        lemma_join_concat(a, m, nl);
        assert(join(a, nl) + nl + Seq::<char>::empty() + nl + join(bl, nl) =~= join(a, nl) + "\n\n"@ + join(
            bl,
            nl,
        ));
    }
}

/// A host's block has at least one line.
proof fn lemma_block_clean_len(h: HostView)
    ensures
        block_lines(h).len() > 0,
{
}

/// The export of some hosts has at least one line.
proof fn lemma_export_len(hs: Seq<HostView>)
    ensures
        hs.len() > 0 ==> export_lines(hs).len() > 0,
    decreases hs.len(),
{
    if hs.len() > 1 {
        lemma_export_len(hs.drop_last());
    }
}

/// Reading an export's lines: all hosts but the last are finished, stripped of
/// what the file does not keep; the last is the current one.
proof fn lemma_parse_export(hs: Seq<HostView>, du: Seq<char>)
    requires
        hs.len() > 0,
        forall|i: int| 0 <= i < hs.len() ==> exportable(#[trigger] hs[i]),
    ensures
        parse_from(parse_start(), export_lines(hs), du) == (ParseState {
            hosts: hs.drop_last().map_values(|h: HostView| stripped(h)),
            current: Some(stripped(hs.last())),
        }),
    decreases hs.len(),
{
    if hs.len() == 1 {
        assert(exportable(hs[0]));
        lemma_parse_block(parse_start(), hs[0], du);
        assert(hs.drop_last().map_values(|h: HostView| stripped(h)) =~= Seq::<HostView>::empty());
    } else {
        let h2 = hs.drop_last();
        assert forall|i: int| 0 <= i < h2.len() implies exportable(#[trigger] h2[i]) by {
            assert(h2[i] == hs[i]);
        }
        lemma_parse_export(h2, du);
        let a = export_lines(h2);
        let m = seq![Seq::<char>::empty()];
        let bl = block_lines(hs.last());
        lemma_parse_concat(parse_start(), a + m, bl, du);
        lemma_parse_concat(parse_start(), a, m, du);
        let st = parse_from(parse_start(), a, du);
        assert(m =~= Seq::<Seq<char>>::empty().push(Seq::<char>::empty()));
        lemma_parse_push(st, Seq::empty(), Seq::<char>::empty(), du);
        assert(parse_from(st, m, du) == st);
        assert(exportable(hs[hs.len() - 1]));
        assert(exportable(h2[h2.len() - 1]));
        lemma_parse_block(st, hs.last(), du);
        assert(hs.drop_last().map_values(|h: HostView| stripped(h)) =~= h2.drop_last().map_values(
            |h: HostView| stripped(h),
        ).push(stripped(h2.last())));
    }
}

/// Reading back the plain `~/.ssh/config` export of a list of hosts gives the
/// hosts again, in order, without what the format does not carry (identifiers,
/// tags, descriptions), provided each field survives the format.
pub proof fn law_export_then_parse(hs: Seq<HostView>, du: Seq<char>)
    requires
        forall|i: int| 0 <= i < hs.len() ==> exportable(#[trigger] hs[i]),
    ensures
        parsed_hosts(join(blocks(hs), "\n\n"@), du) == hs.map_values(|h: HostView| stripped(h)),
{
    lemma_export_text(hs);
    lemma_export_lines_clean(hs);
    let el = export_lines(hs);
    assert forall|i: int| 0 <= i < el.len() implies no_newline(#[trigger] el[i]) by {
        assert(clean_line(el[i]));
    }
    assert forall|i: int| 0 <= i < el.len() - 1 implies strip_cr(#[trigger] el[i]) == el[i] by {
        assert(clean_line(el[i]));
    }
    lemma_lines_of_join(el);
    if hs.len() == 0 {
        assert(el =~= Seq::<Seq<char>>::empty());
        assert(hs.map_values(|h: HostView| stripped(h)) =~= Seq::<HostView>::empty());
    } else {
        lemma_parse_export(hs, du);
        assert(exportable(hs[hs.len() - 1]));
        reveal_strlit("*");
        assert(hs.map_values(|h: HostView| stripped(h)) =~= hs.drop_last().map_values(
            |h: HostView| stripped(h),
        ).push(stripped(hs.last())));
    }
}

// ---------------------------------------------------------------------------
// Syncing keeps the user's own text
// ---------------------------------------------------------------------------

/// Replacing an element by the lines it joins does not change the joined text.
proof fn lemma_join_expand(a: Seq<Seq<char>>, b: Seq<Seq<char>>, c: Seq<Seq<char>>)
    requires
        b.len() > 0,
    ensures
        join(a + seq![join(b, "\n"@)] + c, "\n"@) == join(a + b + c, "\n"@),
{
    let nl = "\n"@;
    let x = join(b, nl);
    if a.len() > 0 {
        lemma_join_concat(a, seq![x] + c, nl);
        lemma_join_concat(a, b + c, nl);
        assert(a + seq![x] + c =~= a + (seq![x] + c));
        assert(a + b + c =~= a + (b + c));
    } else {
        assert(a + seq![x] + c =~= seq![x] + c);
        assert(a + b + c =~= b + c);
    }
    if c.len() > 0 {
        lemma_join_concat(seq![x], c, nl);
        lemma_join_concat(b, c, nl);
    } else {
        assert(seq![x] + c =~= seq![x]);
        assert(b + c =~= b);
    }
}

/// The fixed lines of the synced file are clean and tell apart from each other.
proof fn lemma_fixed_lines()
    ensures
        clean_line(managed_header()),
        clean_line(preserved_note()),
        clean_line(begin_marker()),
        clean_line(end_marker()),
        clean_line(Seq::<char>::empty()),
        end_marker().len() > 0,
        trim(managed_header()) == managed_header(),
        trim(preserved_note()) == preserved_note(),
        trim(begin_marker()) == begin_marker(),
        trim(end_marker()) == end_marker(),
        trim(Seq::<char>::empty()) == Seq::<char>::empty(),
        starts_with(managed_header(), managed_prefix()),
        !starts_with(preserved_note(), managed_prefix()),
        !starts_with(Seq::<char>::empty(), managed_prefix()),
        managed_header() != begin_marker(),
        managed_header() != end_marker(),
        preserved_note() != begin_marker(),
        preserved_note() != end_marker(),
        begin_marker() != end_marker(),
        Seq::<char>::empty() != begin_marker(),
        Seq::<char>::empty() != end_marker(),
        preserved_note().len() > 0,
        !is_ws(preserved_note()[0]),
        !is_ws(preserved_note().last()),
{
    reveal_strlit("# Gerenciado pelo NSR-SSH — não edite manualmente os blocos abaixo");
    reveal_strlit("# Blocos fora desta seção são preservados");
    reveal_strlit("# BEGIN NSR-SSH VAULT");
    reveal_strlit("# END NSR-SSH VAULT");
    reveal_strlit("# Gerenciado pelo NSR-SSH");
    let h1 = managed_header();
    let h2 = preserved_note();
    let bm = begin_marker();
    let em = end_marker();
    assert(is_ws('\n'));
    assert(is_ws('\r'));
    assert(no_newline(h1));
    assert(no_newline(h2));
    assert(no_newline(bm));
    assert(no_newline(em));
    assert(no_newline(Seq::<char>::empty()));
    lemma_trim_start_at(h1, 0);
    lemma_trim_start_at(h2, 0);
    lemma_trim_start_at(bm, 0);
    lemma_trim_start_at(em, 0);
    assert(h1.subrange(0, h1.len() as int) =~= h1);
    assert(h2.subrange(0, h2.len() as int) =~= h2);
    assert(bm.subrange(0, bm.len() as int) =~= bm);
    assert(em.subrange(0, em.len() as int) =~= em);
    lemma_trim_end_at(h1, h1.len() as int);
    lemma_trim_end_at(h2, h2.len() as int);
    lemma_trim_end_at(bm, bm.len() as int);
    lemma_trim_end_at(em, em.len() as int);
    assert(h1.subrange(0, managed_prefix().len() as int) =~= managed_prefix());
    assert(h2[2] != managed_prefix()[2]);
    assert(h2.subrange(0, managed_prefix().len() as int)[2] == h2[2]);
    assert(h1.len() != bm.len());
    assert(h1.len() != em.len());
    assert(h2.len() != bm.len());
    assert(h2.len() != em.len());
    assert(bm.len() != em.len());
}

/// Reading lines inside the vault's section keeps nothing, as long as none of
/// them ends the section.
proof fn lemma_keep_inside(kept: Seq<Seq<char>>, ls: Seq<Seq<char>>)
    requires
        forall|i: int| 0 <= i < ls.len() ==> trim(#[trigger] ls[i]) != end_marker(),
    ensures
        keep_from((kept, true), ls) == (kept, true),
    decreases ls.len(),
{
    if ls.len() > 0 {
        let l2 = ls.drop_last();
        assert forall|i: int| 0 <= i < l2.len() implies trim(#[trigger] l2[i]) != end_marker() by {
            assert(l2[i] == ls[i]);
        }
        lemma_keep_inside(kept, l2);
        assert(trim(ls.last()) != end_marker()) by {
            assert(ls.last() == ls[ls.len() - 1]);
        }
    }
}

/// Reading the user's lines outside the section keeps them all.
proof fn lemma_keep_user(kept: Seq<Seq<char>>, ls: Seq<Seq<char>>)
    requires
        forall|i: int| 0 <= i < ls.len() ==> user_line_ok(#[trigger] ls[i]),
    ensures
        keep_from((kept, false), ls) == (kept + ls, false),
    decreases ls.len(),
{
    if ls.len() == 0 {
        assert(kept + ls =~= kept);
    } else {
        let l2 = ls.drop_last();
        assert forall|i: int| 0 <= i < l2.len() implies user_line_ok(#[trigger] l2[i]) by {
            assert(l2[i] == ls[i]);
        }
        lemma_keep_user(kept, l2);
        assert(user_line_ok(ls.last())) by {
            assert(ls.last() == ls[ls.len() - 1]);
        }
        assert((kept + l2).push(ls.last()) =~= kept + ls);
    }
}

/// Reading the lines `a` then the lines `b` is reading `b` from where `a` left off.
proof fn lemma_keep_concat(st: (Seq<Seq<char>>, bool), a: Seq<Seq<char>>, b: Seq<Seq<char>>)
    ensures
        keep_from(st, a + b) == keep_from(keep_from(st, a), b),
    decreases b.len(),
{
    if b.len() == 0 {
        assert(a + b =~= a);
    } else {
        let b2 = b.drop_last();
        lemma_keep_concat(st, a, b2);
        assert((a + b).drop_last() =~= a + b2);
        assert((a + b).last() == b.last());
    }
}

/// Keeping through a single line is one step of the keeper.
proof fn lemma_keep_one(st: (Seq<Seq<char>>, bool), l: Seq<char>)
    ensures
        keep_from(st, seq![l]) == keep_step(st, l),
{
    reveal_with_fuel(keep_from, 2);
    assert(seq![l].drop_last() =~= Seq::<Seq<char>>::empty());
    assert(seq![l].last() == l);
}

/// A line of the user's own text that a sync keeps as it is: clean, and
/// neither a marker nor one of the program's header lines.
pub open spec fn user_line_ok(l: Seq<char>) -> bool {
    &&& clean_line(l)
    &&& trim(l) != begin_marker()
    &&& trim(l) != end_marker()
    &&& trim(l) != preserved_note()
    &&& !starts_with(l, managed_prefix())
}

/// The lines a host's block becomes in a synced file, where a line feed follows it.
pub open spec fn block_file_lines(h: HostView) -> Seq<Seq<char>> {
    line_scan(config_block(h) + "\n"@).0
}

/// No line that the blocks of `hs` become in a synced file reads as the end
/// marker, so the vault's section ends where the program ends it.
pub open spec fn section_safe(hs: Seq<HostView>) -> bool {
    forall|i: int, k: int|
        0 <= i < hs.len() && 0 <= k < block_file_lines(hs[i]).len() ==> trim(#[trigger] block_file_lines(hs[i])[k])
            != end_marker()
}

/// Scanning text after text that ends at a line feed adds the second text's
/// lines after the first's.
proof fn lemma_scan_after_line_end(s: Seq<char>, t: Seq<char>)
    requires
        line_scan(s).1.len() == 0,
    ensures
        line_scan(s + t) == (line_scan(s).0 + line_scan(t).0, line_scan(t).1),
    decreases t.len(),
{
    if t.len() == 0 {
        assert(s + t =~= s);
        assert(line_scan(s).0 + line_scan(t).0 =~= line_scan(s).0);
        assert(line_scan(s).1 =~= line_scan(t).1);
    } else {
        let t2 = t.drop_last();
        lemma_scan_after_line_end(s, t2);
        assert((s + t).drop_last() =~= s + t2);
        assert((s + t).last() == t.last());
        let (d2, c2) = line_scan(t2);
        if t.last() == '\n' {
            assert(line_scan(s).0 + d2.push(strip_cr(c2)) =~= (line_scan(s).0 + d2).push(strip_cr(c2)));
        }
    }
}

/// A text that ends in a line feed leaves no pending line.
proof fn lemma_scan_ends_line(x: Seq<char>)
    ensures
        line_scan(x + "\n"@).1.len() == 0,
        line_scan(x + "\n"@).0 == line_scan(x).0.push(strip_cr(line_scan(x).1)),
{
    reveal_strlit("\n");
    let y = x + "\n"@;
    assert(y.drop_last() =~= x);
    assert(y.last() == '\n');
}

/// The elements of the vault's section: blank lines and the hosts' blocks.
proof fn lemma_section_elements(hs: Seq<HostView>, k: int)
    requires
        0 <= k < host_section(hs).len(),
    ensures
        host_section(hs)[k] == Seq::<char>::empty() || exists|i: int| 0 <= i < hs.len() && host_section(hs)[k]
            == config_block(#[trigger] hs[i]),
    decreases hs.len(),
{
    let h2 = hs.drop_last();
    let prev = host_section(h2);
    assert(host_section(hs) == prev + seq![Seq::<char>::empty(), config_block(hs.last())]);
    if k < prev.len() {
        lemma_section_elements(h2, k);
        assert(host_section(hs)[k] == prev[k]);
        if prev[k] != Seq::<char>::empty() {
            let i = choose|i: int| 0 <= i < h2.len() && prev[k] == config_block(#[trigger] h2[i]);
            assert(hs[i] == h2[i]);
        }
    } else if k == prev.len() + 1 {
        assert(hs[hs.len() - 1] == hs.last());
    }
}

/// Where every element of `m`, followed by a line feed, becomes lines of
/// which none reads as the end marker, so does their join.
proof fn lemma_scan_joined_safe(m: Seq<Seq<char>>)
    requires
        m.len() > 0,
        forall|j: int, k: int|
            0 <= j < m.len() && 0 <= k < line_scan(m[j] + "\n"@).0.len() ==> trim(
                #[trigger] line_scan(#[trigger] m[j] + "\n"@).0[k],
            ) != end_marker(),
    ensures
        line_scan(join(m, "\n"@) + "\n"@).1.len() == 0,
        forall|k: int|
            0 <= k < line_scan(join(m, "\n"@) + "\n"@).0.len() ==> trim(
                #[trigger] line_scan(join(m, "\n"@) + "\n"@).0[k],
            ) != end_marker(),
    decreases m.len(),
{
    let nl = "\n"@;
    lemma_scan_ends_line(join(m, nl));
    if m.len() == 1 {
        assert(join(m, nl) == m[0]);
        assert forall|k: int| 0 <= k < line_scan(join(m, nl) + nl).0.len() implies trim(
            #[trigger] line_scan(join(m, nl) + nl).0[k],
        ) != end_marker() by {
            assert(line_scan(m[0] + nl).0[k] == line_scan(join(m, nl) + nl).0[k]);
        }
    } else {
        let m2 = m.drop_last();
        let e = m.last();
        assert forall|j: int, k: int|
            0 <= j < m2.len() && 0 <= k < line_scan(m2[j] + nl).0.len() implies trim(
            #[trigger] line_scan(#[trigger] m2[j] + nl).0[k],
        ) != end_marker() by {
            assert(m2[j] == m[j]);
        }
        lemma_scan_joined_safe(m2);
        assert(join(m, nl) == join(m2, nl) + nl + e);
        let a = join(m2, nl) + nl;
        let b = e + nl;
        assert(join(m, nl) + nl =~= a + b);
        lemma_scan_after_line_end(a, b);
        lemma_scan_ends_line(e);
        assert(e == m[m.len() - 1]);
        let la = line_scan(a).0;
        let lb = line_scan(b).0;
        assert forall|k: int| 0 <= k < line_scan(join(m, nl) + nl).0.len() implies trim(
            #[trigger] line_scan(join(m, nl) + nl).0[k],
        ) != end_marker() by {
            assert(line_scan(join(m, nl) + nl).0 == la + lb);
            if k < la.len() {
                assert((la + lb)[k] == la[k]);
            } else {
                assert((la + lb)[k] == lb[k - la.len()]);
                assert(lb[k - la.len()] == line_scan(m[m.len() - 1] + nl).0[k - la.len()]);
            }
        }
    }
}

/// A sync keeps the user's own text: reading back the user's part of the file
/// written for the hosts `hs` around the user's lines `user` gives the user's
/// text, and nothing else.
///
/// The user's lines must be clean, neither marker nor one of the program's
/// header lines, and their text must be trimmed; no line that a host's block
/// becomes in the file may read as the end marker.
pub proof fn law_sync_keeps_user_text(user: Seq<Seq<char>>, hs: Seq<HostView>)
    requires
        forall|i: int| 0 <= i < user.len() ==> user_line_ok(#[trigger] user[i]),
        trim(join(user, "\n"@)) == join(user, "\n"@),
        section_safe(hs),
    ensures
        ({
            let existing = join(user, "\n"@);
            preserved_text(join(rendered_lines(existing, hs), "\n"@)) == existing
        }),
{
    let nl = "\n"@;
    let existing = join(user, nl);
    lemma_fixed_lines();
    let e = Seq::<char>::empty();
    let head = seq![managed_header(), preserved_note(), e];
    let x: Seq<Seq<char>> = if existing.len() > 0 { user + seq![e] } else { Seq::empty() };
    let p = head + x + seq![begin_marker()];
    let m = host_section(hs) + seq![e];
    let end = seq![end_marker()];
    // The file's text is the prefix's lines, the section's text and the end marker.
    let text = join(rendered_lines(existing, hs), nl);
    if existing.len() > 0 {
        assert(user.len() > 0);
        assert(rendered_lines(existing, hs) =~= head + seq![existing] + (seq![e, begin_marker()] + m + end));
        lemma_join_expand(head, user, seq![e, begin_marker()] + m + end);
        assert(head + user + (seq![e, begin_marker()] + m + end) =~= p + (m + end));
    } else {
        assert(rendered_lines(existing, hs) =~= p + (m + end));
    }
    assert(text == join(p + (m + end), nl));
    lemma_join_concat(p, m + end, nl);
    lemma_join_concat(m, end, nl);
    assert(join(end, nl) == end_marker());
    let a = join(p, nl) + nl;
    let b = (join(m, nl) + nl) + end_marker();
    assert(text =~= a + b);
    // The prefix's lines are clean.
    assert forall|i: int| 0 <= i < p.len() implies clean_line(#[trigger] p[i]) by {
        if i < 3 {
            assert(p[i] == head[i]);
        } else if i < 3 + x.len() {
            assert(p[i] == x[i - 3]);
            if i - 3 < user.len() {
                assert(x[i - 3] == user[i - 3]);
                assert(user_line_ok(user[i - 3]));
            }
        } else {
            assert(p[i] == begin_marker());
        }
    }
    assert forall|i: int| 0 <= i < p.len() implies no_newline(#[trigger] p[i]) by {
        assert(clean_line(p[i]));
    }
    assert forall|i: int| 0 <= i < p.len() - 1 implies strip_cr(#[trigger] p[i]) == p[i] by {
        assert(clean_line(p[i]));
    }
    lemma_scan_join(p);
    lemma_scan_ends_line(join(p, nl));
    assert(p.drop_last().push(strip_cr(p.last())) =~= p);
    assert(line_scan(a) == (p, Seq::<char>::empty()));
    // The section's lines never read as the end marker.
    assert forall|j: int, k: int| 0 <= j < m.len() && 0 <= k < line_scan(m[j] + nl).0.len() implies trim(
        #[trigger] line_scan(#[trigger] m[j] + nl).0[k],
    ) != end_marker() by {
        if j < host_section(hs).len() {
            assert(m[j] == host_section(hs)[j]);
            lemma_section_elements(hs, j);
            if m[j] != e {
                let i = choose|i: int| 0 <= i < hs.len() && host_section(hs)[j] == config_block(#[trigger] hs[i]);
                assert(block_file_lines(hs[i]) == line_scan(m[j] + nl).0);
            }
        }
        if m[j] == e {
            lemma_scan_ends_line(e);
            assert(line_scan(e).0 =~= Seq::<Seq<char>>::empty());
            assert(line_scan(e + nl).0 =~= seq![e]);
            assert(trim(e) == e);
        }
    }
    lemma_scan_joined_safe(m);
    let lm = line_scan(join(m, nl) + nl).0;
    lemma_scan_no_newline(end_marker());
    lemma_scan_append(join(m, nl) + nl, end_marker());
    assert(line_scan(join(m, nl) + nl).1 + end_marker() =~= end_marker());
    lemma_scan_after_line_end(a, b);
    assert(lines_of(text) == p + lm + end);
    // Reading the lines.
    let s0 = (Seq::<Seq<char>>::empty(), false);
    lemma_keep_concat(s0, p + lm, end);
    lemma_keep_concat(s0, p, lm);
    lemma_keep_concat(s0, head + x, seq![begin_marker()]);
    lemma_keep_concat(s0, head, x);
    assert(head =~= seq![managed_header()] + seq![preserved_note()] + seq![e]);
    lemma_keep_concat(s0, seq![managed_header()] + seq![preserved_note()], seq![e]);
    lemma_keep_concat(s0, seq![managed_header()], seq![preserved_note()]);
    lemma_keep_one(s0, managed_header());
    let s1 = keep_step(s0, managed_header());
    assert(s1 == s0);
    lemma_keep_one(s1, preserved_note());
    let s2 = keep_step(s1, preserved_note());
    assert(s2 == s0);
    lemma_keep_one(s2, e);
    let s3 = keep_step(s2, e);
    assert(s3 == (seq![e], false));
    assert(keep_from(s0, head) == s3);
    let kept_x = seq![e] + x;
    if existing.len() > 0 {
        assert forall|i: int| 0 <= i < x.len() implies user_line_ok(#[trigger] x[i]) by {
            if i < user.len() {
                assert(x[i] == user[i]);
            } else {
                assert(x[i] == e);
            }
        }
    }
    lemma_keep_user(s3.0, x);
    let s4 = keep_from(s3, x);
    assert(s4 == (kept_x, false));
    lemma_keep_one(s4, begin_marker());
    let s5 = keep_step(s4, begin_marker());
    assert(s5 == (kept_x, true));
    assert(keep_from(s0, p) == s5);
    lemma_keep_inside(kept_x, lm);
    lemma_keep_one(s5, end_marker());
    assert(keep_scan(lines_of(text)).0 == kept_x);
    // Joining and trimming what was kept.
    reveal_strlit("\n");
    if existing.len() > 0 {
        lemma_join_concat(seq![e], user, nl);
        lemma_join_concat(seq![e] + user, seq![e], nl);
        assert(kept_x =~= seq![e] + user + seq![e]);
        reveal_with_fuel(join, 2);
        assert(join(seq![e], nl) =~= e);
        assert(join(kept_x, nl) =~= nl + existing + nl);
        lemma_trimmed_ends(existing);
        let t = nl + existing + nl;
        lemma_trim_start_at(t, 1);
        let u = t.subrange(1, t.len() as int);
        assert(u =~= existing + nl);
        lemma_trim_end_at(u, existing.len() as int);
        assert(u.subrange(0, existing.len() as int) =~= existing);
    } else {
        assert(kept_x =~= seq![e]);
        reveal_with_fuel(join, 2);
        assert(join(kept_x, nl) =~= e);
        lemma_trim_start_at(e, 0);
        lemma_trim_end_at(e, 0);
        assert(e.subrange(0, 0) =~= e);
    }
}

/// Syncing twice writes what syncing once wrote: the second sync reads back
/// the user's text from the first one's file and writes the same file again.
///
/// The conditions are those under which a sync keeps the user's text.
pub proof fn law_sync_twice_is_sync_once(user: Seq<Seq<char>>, hs: Seq<HostView>)
    requires
        forall|i: int| 0 <= i < user.len() ==> user_line_ok(#[trigger] user[i]),
        trim(join(user, "\n"@)) == join(user, "\n"@),
        section_safe(hs),
    ensures
        ({
            let first = join(rendered_lines(join(user, "\n"@), hs), "\n"@);
            join(rendered_lines(preserved_text(first), hs), "\n"@) == first
        }),
{
    law_sync_keeps_user_text(user, hs);
}


/// Trimming the start gives a text that is empty or starts with a character
/// that is not whitespace.
proof fn lemma_trim_start_first(s: Seq<char>)
    ensures
        trim_start(s).len() > 0 ==> !is_ws(trim_start(s)[0]),
    decreases s.len(),
{
    if s.len() > 0 && is_ws(s[0]) {
        lemma_trim_start_first(s.drop_first());
    }
}

/// Trimming the end gives a text that is empty or ends with a character that
/// is not whitespace.
proof fn lemma_trim_end_last(s: Seq<char>)
    ensures
        trim_end(s).len() > 0 ==> !is_ws(trim_end(s).last()),
    decreases s.len(),
{
    if s.len() > 0 && is_ws(s.last()) {
        lemma_trim_end_last(s.drop_last());
    }
}

/// Trimming a trimmed text changes nothing.
proof fn lemma_trim_twice(s: Seq<char>)
    ensures
        trim(trim(s)) == trim(s),
{
    let t = trim(s);
    let a = trim_start(s);
    lemma_trim_start_first(s);
    lemma_trim_end_last(a);
    if t.len() > 0 {
        lemma_trim_end_len(a);
        assert(a.len() > 0);
        lemma_trim_end_keeps_first(a);
        lemma_trim_start_at(t, 0);
        assert(t.subrange(0, t.len() as int) =~= t);
        lemma_trim_end_at(t, t.len() as int);
    } else {
        assert(trim_start(t) == t);
    }
}

/// The text pending in a scan, joined after the finished lines, is the text
/// scanned, where the text holds no carriage return.
proof fn lemma_scan_rejoins(s: Seq<char>)
    requires
        forall|i: int| 0 <= i < s.len() ==> s[i] != '\r',
    ensures
        join(line_scan(s).0.push(line_scan(s).1), "\n"@) == s,
        forall|k: int| 0 <= k < line_scan(s).0.len() ==> no_newline(#[trigger] line_scan(s).0[k]),
        no_newline(line_scan(s).1),
        forall|i: int| 0 <= i < line_scan(s).1.len() ==> line_scan(s).1[i] != '\r',
    decreases s.len(),
{
    reveal_strlit("\n");
    if s.len() == 0 {
        assert(line_scan(s).0.push(line_scan(s).1) =~= seq![Seq::<char>::empty()]);
        assert(s =~= Seq::<char>::empty());
    } else {
        let d = s.drop_last();
        assert forall|i: int| 0 <= i < d.len() implies d[i] != '\r' by {
            assert(d[i] == s[i]);
        }
        lemma_scan_rejoins(d);
        let (done, cur) = line_scan(d);
        let c = s.last();
        assert(s =~= d.push(c));
        if c == '\n' {
            assert(strip_cr(cur) == cur);
            let parts = done.push(cur).push(Seq::<char>::empty());
            assert(parts.drop_last() =~= done.push(cur));
            assert(join(parts, "\n"@) == join(done.push(cur), "\n"@) + "\n"@ + Seq::<char>::empty());
            assert(join(parts, "\n"@) =~= s);
            assert forall|k: int| 0 <= k < done.push(cur).len() implies no_newline(#[trigger] done.push(cur)[k]) by {
                if k < done.len() {
                    assert(done.push(cur)[k] == done[k]);
                }
            }
        } else {
            let parts = done.push(cur.push(c));
            assert(c == s[s.len() - 1]);
            if done.len() == 0 {
                assert(join(parts, "\n"@) == cur.push(c));
                assert(join(done.push(cur), "\n"@) == cur);
            } else {
                assert(parts.drop_last() =~= done);
                assert(done.push(cur).drop_last() =~= done);
                assert(join(parts, "\n"@) == join(done, "\n"@) + "\n"@ + cur.push(c));
                assert(join(done.push(cur), "\n"@) == join(done, "\n"@) + "\n"@ + cur);
            }
            assert(join(parts, "\n"@) =~= s);
            assert(no_newline(cur.push(c))) by {
                assert forall|i: int| 0 <= i < cur.push(c).len() implies cur.push(c)[i] != '\n' by {
                    if i < cur.len() {
                        assert(cur.push(c)[i] == cur[i]);
                    }
                }
            }
            assert forall|i: int| 0 <= i < cur.push(c).len() implies cur.push(c)[i] != '\r' by {
                if i < cur.len() {
                    assert(cur.push(c)[i] == cur[i]);
                }
            }
        }
    }
}

/// A text without carriage returns that does not end in a line feed is its
/// lines joined by line feeds.
proof fn lemma_lines_rejoin(s: Seq<char>)
    requires
        forall|i: int| 0 <= i < s.len() ==> s[i] != '\r',
        s.len() > 0 ==> s.last() != '\n',
    ensures
        join(lines_of(s), "\n"@) == s,
{
    lemma_scan_rejoins(s);
    let (done, cur) = line_scan(s);
    if s.len() > 0 {
        let d = s.drop_last();
        assert(s =~= d.push(s.last()));
        assert(cur == line_scan(d).1.push(s.last()));
        assert(cur.len() > 0);
    } else {
        assert(done =~= Seq::<Seq<char>>::empty());
        assert(lines_of(s) =~= Seq::<Seq<char>>::empty());
    }
}

/// Syncing settles: whatever the file held before, a second sync writes what
/// the first one wrote, where the user's part of the old file holds no
/// carriage return and each of its lines is one a sync keeps as it is (after
/// trimming, its first line may no longer start with blanks, and must then not
/// read as a header line), and no line of a host's block reads as the end
/// marker.
pub proof fn law_sync_settles(content: Seq<char>, hs: Seq<HostView>)
    requires
        forall|i: int| 0 <= i < preserved_text(content).len() ==> preserved_text(content)[i] != '\r',
        forall|k: int| 0 <= k < lines_of(preserved_text(content)).len() ==> user_line_ok(
            #[trigger] lines_of(preserved_text(content))[k],
        ),
        section_safe(hs),
    ensures
        ({
            let first = join(rendered_lines(preserved_text(content), hs), "\n"@);
            join(rendered_lines(preserved_text(first), hs), "\n"@) == first
        }),
{
    let u = preserved_text(content);
    lemma_trim_twice(join(keep_scan(lines_of(content)).0, "\n"@));
    assert(trim(u) == u);
    if u.len() > 0 {
        lemma_trim_end_last(trim_start(join(keep_scan(lines_of(content)).0, "\n"@)));
        assert(!is_ws(u.last()));
    }
    lemma_lines_rejoin(u);
    law_sync_keeps_user_text(lines_of(u), hs);
}


/// The keywords the vault reads from `~/.ssh/config`, lowercased.
pub open spec fn known_keyword(k: Seq<char>) -> bool {
    k == "host"@ || k == "hostname"@ || k == "user"@ || k == "port"@ || k == "identityfile"@
}

/// A line whose keyword, lowercased, is none of `host`, `hostname`, `user`,
/// `port` and `identityfile` changes nothing: every other keyword (such as
/// `UserKnownHostsFile` or `ProxyJump`) is ignored, as are blank lines,
/// comments and lines without a value.
pub proof fn law_unknown_keyword_ignored(st: ParseState, line: Seq<char>, du: Seq<char>)
    requires
        match first_ws(trim(line)) {
            Some(p) => !known_keyword(lowercase(trim(line).subrange(0, p))),
            None => true,
        },
    ensures
        parse_line(st, line, du) == st,
{
}

/// Each keyword the vault reads touches only its own field of the host being
/// read: a `user` line changes the user and nothing else, and so on; a `host`
/// line finishes the host being read and starts a new one.
pub proof fn law_keyword_sets_its_field(st: ParseState, key: Seq<char>, value: Seq<char>, du: Seq<char>)
    requires
        st.current is Some,
        known_keyword(key),
        key != "host"@,
    ensures
        apply_keyword(st, key, value, du).hosts == st.hosts,
        apply_keyword(st, key, value, du).current matches Some(h) && {
            let c = st.current->0;
            &&& h.alias == c.alias
            &&& h.id == c.id
            &&& h.tags == c.tags
            &&& h.description == c.description
            &&& h.hostname == if key == "hostname"@ { value } else { c.hostname }
            &&& h.user == if key == "user"@ { value } else { c.user }
            &&& h.port == if key == "port"@ { port_value(value) } else { c.port }
            &&& h.identity_file == if key == "identityfile"@ { Some(value) } else { c.identity_file }
        },
{
    reveal_strlit("host");
    reveal_strlit("hostname");
    reveal_strlit("user");
    reveal_strlit("port");
    reveal_strlit("identityfile");
    let c = st.current->0;
    let r = apply_keyword(st, key, value, du);
    assert("host"@.len() == 4 && "hostname"@.len() == 8 && "identityfile"@.len() == 12);
    assert("user"@.len() == 4 && "port"@.len() == 4);
    assert("user"@[0] == 'u' && "port"@[0] == 'p' && "host"@[0] == 'h');
    if key == "hostname"@ {
        assert(r.current == Some(with_hostname(c, value)));
    } else if key == "user"@ {
        assert(r.current == Some(with_user(c, value)));
    } else if key == "port"@ {
        assert(r.current == Some(with_port(c, port_value(value))));
    } else {
        assert(r.current == Some(with_identity_file(c, value)));
    }
}

} // verus!
