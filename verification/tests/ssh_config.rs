use nsr_ssh::host::Host;
use nsr_ssh::ssh_config::{export_ssh_config, parse_ssh_config, read_non_nsr_blocks, render_ssh_config, synced_config};

fn host(alias: &str, hostname: &str, user: &str, port: u16, key: Option<&str>) -> Host {
    let mut h = Host::new(alias, hostname, user);
    h.port = port;
    h.identity_file = key.map(|k| k.to_string());
    h
}

#[test]
fn parse_reads_hosts_in_order() {
    let cfg = "Host web\n    HostName 10.0.0.1\n    User deploy\n    Port 2222\n    IdentityFile ~/.ssh/web\n\nHost *\n    User x\n\nHost db\n  hostname db.local\n";
    let hosts = parse_ssh_config(cfg, "me");
    assert_eq!(hosts.len(), 2);
    assert_eq!(hosts[0].alias, "web");
    assert_eq!(hosts[0].hostname, "10.0.0.1");
    assert_eq!(hosts[0].user, "deploy");
    assert_eq!(hosts[0].port, 2222);
    assert_eq!(hosts[0].identity_file.as_deref(), Some("~/.ssh/web"));
    assert!(hosts[0].tags.is_empty());
    assert_eq!(hosts[0].description, None);
    assert_eq!(hosts[1].alias, "db");
    assert_eq!(hosts[1].hostname, "db.local");
    assert_eq!(hosts[1].user, "me");
    assert_eq!(hosts[1].port, 22);
    assert_eq!(hosts[1].identity_file, None);
    assert_ne!(hosts[0].id, hosts[1].id);
}

#[test]
fn parse_keeps_a_middle_host_without_address_but_not_the_last() {
    let cfg = "Host a\nHost b\n    HostName b.example\nHost c\n";
    let hosts = parse_ssh_config(cfg, "root");
    let aliases: Vec<&str> = hosts.iter().map(|h| h.alias.as_str()).collect();
    assert_eq!(aliases, vec!["a", "b"]);
    assert_eq!(hosts[0].hostname, "");
}

#[test]
fn parse_skips_comments_blank_lines_and_lines_before_any_host() {
    let cfg = "# my config\nUser ignored\n\n   # indented comment\nHost x\n\tHostName  x.example  \nKeyword\n";
    let hosts = parse_ssh_config(cfg, "u");
    assert_eq!(hosts.len(), 1);
    assert_eq!(hosts[0].alias, "x");
    assert_eq!(hosts[0].hostname, "x.example");
    assert_eq!(hosts[0].user, "u");
}

#[test]
fn parse_handles_crlf_and_keyword_case() {
    let cfg = "HOST box\r\n    HOSTNAME box.lan\r\n    user Admin\r\n    PORT 23\r\n";
    let hosts = parse_ssh_config(cfg, "root");
    assert_eq!(hosts.len(), 1);
    assert_eq!(hosts[0].alias, "box");
    assert_eq!(hosts[0].hostname, "box.lan");
    assert_eq!(hosts[0].user, "Admin");
    assert_eq!(hosts[0].port, 23);
}

#[test]
fn parse_port_falls_back_to_22() {
    let cfg = "Host a\n HostName a\n Port abc\nHost b\n HostName b\n Port 70000\nHost c\n HostName c\n Port +80\nHost d\n HostName d\n Port -1\n";
    let hosts = parse_ssh_config(cfg, "root");
    let ports: Vec<u16> = hosts.iter().map(|h| h.port).collect();
    assert_eq!(ports, vec![22, 22, 80, 22]);
}

#[test]
fn parse_of_empty_text_is_empty() {
    assert!(parse_ssh_config("", "root").is_empty());
    assert!(parse_ssh_config("\n\n# nothing\n", "root").is_empty());
}

#[test]
fn parse_drops_star_pattern_at_the_end() {
    let hosts = parse_ssh_config("Host *\n    HostName everywhere\n", "root");
    assert!(hosts.is_empty());
}

#[test]
fn config_block_format() {
    let mut h = host("web", "10.0.0.1", "deploy", 2222, Some("~/.ssh/web"));
    h.description = Some("front".to_string());
    assert_eq!(
        h.to_ssh_config_block(),
        "Host web\n    HostName 10.0.0.1\n    User deploy\n    Port 2222\n    IdentityFile ~/.ssh/web\n    # front"
    );
    let plain = host("db", "db.local", "root", 22, None);
    assert_eq!(plain.to_ssh_config_block(), "Host db\n    HostName db.local\n    User root\n    Port 22");
}

#[test]
fn connection_string_format() {
    let h = host("web", "10.0.0.1", "deploy", 2222, None);
    assert_eq!(h.connection_string(), "deploy@10.0.0.1:2222");
    assert_eq!(host("z", "h", "u", 0, None).connection_string(), "u@h:0");
    assert_eq!(host("z", "h", "u", 65535, None).connection_string(), "u@h:65535");
}

#[test]
fn export_separates_blocks_with_a_blank_line() {
    let hosts = vec![host("a", "a.lan", "u", 22, None), host("b", "b.lan", "v", 2200, None)];
    assert_eq!(
        export_ssh_config(&hosts),
        "Host a\n    HostName a.lan\n    User u\n    Port 22\n\nHost b\n    HostName b.lan\n    User v\n    Port 2200"
    );
    assert_eq!(export_ssh_config(&[]), "");
}

#[test]
fn export_then_parse_gives_the_hosts_back() {
    let mut a = host("web", "10.0.0.1", "deploy", 2222, Some("~/.ssh/web"));
    a.tags = vec!["prod".to_string()];
    a.description = Some("front end".to_string());
    let b = host("db", "db.local", "root", 22, None);
    let c = host("my box", "box", "me", 1, None);
    let hosts = vec![a.clone(), b.clone(), c.clone()];
    let back = parse_ssh_config(&export_ssh_config(&hosts), "nobody");
    assert_eq!(back.len(), 3);
    for (orig, got) in hosts.iter().zip(back.iter()) {
        assert_eq!(got.alias, orig.alias);
        assert_eq!(got.hostname, orig.hostname);
        assert_eq!(got.user, orig.user);
        assert_eq!(got.port, orig.port);
        assert_eq!(got.identity_file, orig.identity_file);
        assert!(got.tags.is_empty());
        assert_eq!(got.description, None);
    }
}

#[test]
fn render_writes_header_user_text_and_section() {
    let hosts = vec![host("a", "a.lan", "u", 22, None)];
    let text = render_ssh_config("Host mine\n    HostName mine.lan", &hosts);
    assert_eq!(
        text,
        "# Gerenciado pelo NSR-SSH — não edite manualmente os blocos abaixo\n# Blocos fora desta seção são preservados\n\nHost mine\n    HostName mine.lan\n\n# BEGIN NSR-SSH VAULT\n\nHost a\n    HostName a.lan\n    User u\n    Port 22\n\n# END NSR-SSH VAULT"
    );
    let empty = render_ssh_config("", &[]);
    assert_eq!(
        empty,
        "# Gerenciado pelo NSR-SSH — não edite manualmente os blocos abaixo\n# Blocos fora desta seção são preservados\n\n# BEGIN NSR-SSH VAULT\n\n# END NSR-SSH VAULT"
    );
}

#[test]
fn sync_keeps_the_user_text() {
    let hosts = vec![host("a", "a.lan", "u", 22, None), host("b", "b.lan", "u", 22, Some("k"))];
    let mine = "Host mine\n    HostName mine.lan\n\n# my notes";
    let text = render_ssh_config(mine, &hosts);
    assert_eq!(read_non_nsr_blocks(&text), mine);
    assert_eq!(read_non_nsr_blocks(&render_ssh_config("", &hosts)), "");
}

#[test]
fn read_non_nsr_blocks_drops_the_section_and_header() {
    let content = "# Gerenciado pelo NSR-SSH xyz\n  keep me  \n   # BEGIN NSR-SSH VAULT   \nHost gone\n# END NSR-SSH VAULT\nafter\n";
    assert_eq!(read_non_nsr_blocks(content), "keep me  \nafter");
    assert_eq!(read_non_nsr_blocks(""), "");
    assert_eq!(read_non_nsr_blocks("# BEGIN NSR-SSH VAULT\nno end"), "");
}

#[test]
fn synced_config_keeps_the_user_part_and_rewrites_the_section() {
    let hosts = vec![host("a", "a.lan", "u", 22, None)];
    assert_eq!(synced_config(None, &hosts), render_ssh_config("", &hosts));
    let current = "Host mine\n    HostName m\n# BEGIN NSR-SSH VAULT\nHost old\n# END NSR-SSH VAULT\n";
    let text = synced_config(Some(current), &hosts);
    assert_eq!(text, render_ssh_config("Host mine\n    HostName m", &hosts));
    assert!(!text.contains("Host old"));
    let again = synced_config(Some(&text), &hosts);
    assert_eq!(again, text);
    assert_eq!(read_non_nsr_blocks(&again), "Host mine\n    HostName m");
    let fresh = synced_config(None, &hosts);
    assert_eq!(synced_config(Some(&fresh), &hosts), fresh);
}

#[test]
fn sync_settles_with_multi_line_fields() {
    let mut a = host("a", "a.lan", "u", 22, None);
    a.description = Some("first line\nsecond line\r".to_string());
    let mut b = host("b", "b.lan\r", "v", 2200, Some("k"));
    b.description = Some("  indented".to_string());
    let hosts = vec![a, b];
    let before = "Host mine\r\n    HostName m\n# Blocos fora desta seção são preservados\n";
    let first = synced_config(Some(before), &hosts);
    assert_eq!(synced_config(Some(&first), &hosts), first);
    assert_eq!(read_non_nsr_blocks(&first), "Host mine\n    HostName m");
}

#[test]
fn a_description_reading_as_the_end_marker_ends_the_section_early() {
    let mut a = host("a", "a.lan", "u", 22, None);
    a.description = Some("x\n# END NSR-SSH VAULT\nafter".to_string());
    let first = synced_config(None, &[a.clone()]);
    assert_eq!(read_non_nsr_blocks(&first), "after");
    assert_ne!(synced_config(Some(&first), &[a]), first);
}
