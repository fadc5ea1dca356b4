use nsr_ssh::host::Host;
use nsr_ssh::pane::{PaneTree, Tab};
use nsr_ssh::workspace::{connecting_status, matching_hosts, Workspace};

fn tagged(alias: &str, hostname: &str, tags: &[&str]) -> Host {
    let mut h = Host::new(alias, hostname, "root");
    h.tags = tags.iter().map(|t| t.to_string()).collect();
    h
}

#[test]
fn search_matches_alias_address_and_tags_ignoring_case() {
    let hosts = vec![
        tagged("Web-Prod", "10.0.0.1", &["frontend"]),
        tagged("db", "db.internal", &["Prod", "sql"]),
        tagged("cache", "10.0.0.9", &[]),
    ];
    let ids = matching_hosts(&hosts, "PROD");
    assert_eq!(ids, vec![hosts[0].id, hosts[1].id]);
    assert_eq!(matching_hosts(&hosts, "10.0.0"), vec![hosts[0].id, hosts[2].id]);
    assert_eq!(matching_hosts(&hosts, ""), vec![hosts[0].id, hosts[1].id, hosts[2].id]);
    assert!(matching_hosts(&hosts, "nothing").is_empty());
    assert_eq!(matching_hosts(&hosts, "SQL"), vec![hosts[1].id]);
}

#[test]
fn connecting_status_text() {
    assert_eq!(connecting_status("web"), "Conectando em web...");
}

#[test]
fn open_and_close_tabs() {
    let mut w = Workspace::new(vec![]);
    assert!(w.tabs.is_empty());
    assert_eq!(w.active_tab, None);
    let t1 = Tab::new("a", "a", 1);
    let id1 = t1.id;
    w.open_tab(t1);
    let mut t2 = Tab::new("b", "b", 2);
    t2.pane_tree = PaneTree::Terminal(2).split_h_at(2, 3);
    let id2 = t2.id;
    w.open_tab(t2);
    assert_eq!(w.active_tab, Some(id2));
    assert_eq!(w.find_tab(id1), Some(0));
    let closed = w.close_tab(id2);
    assert_eq!(closed, vec![2, 3]);
    assert_eq!(w.tabs.len(), 1);
    assert_eq!(w.active_tab, Some(id1));
    assert!(w.close_tab(999).is_empty());
    assert_eq!(w.tabs.len(), 1);
    assert_eq!(w.close_tab(id1), vec![1]);
    assert_eq!(w.active_tab, None);
}

#[test]
fn host_for_tab_finds_the_host_by_alias() {
    let a = Host::new("a", "a.lan", "u");
    let b = Host::new("b", "b.lan", "u");
    let mut w = Workspace::new(vec![a.clone(), b.clone()]);
    let t = Tab::new("b", "b", 1);
    let tid = t.id;
    w.open_tab(t);
    let orphan = Tab::new("z", "zzz", 2);
    let oid = orphan.id;
    w.open_tab(orphan);
    assert_eq!(w.host_for_tab(tid), Some(b));
    assert_eq!(w.host_for_tab(oid), None);
    assert_eq!(w.host_for_tab(12345), None);
}

#[test]
fn save_replaces_or_appends() {
    let a = Host::new("a", "a.lan", "u");
    let mut w = Workspace::new(vec![a.clone()]);
    let mut changed = a.clone();
    changed.hostname = "new.lan".to_string();
    w.save_host(changed.clone());
    assert_eq!(w.hosts, vec![changed.clone()]);
    let b = Host::new("b", "b.lan", "u");
    w.save_host(b.clone());
    assert_eq!(w.hosts, vec![changed.clone(), b.clone()]);
    assert_eq!(w.find_host(b.id), Some(1));
}

#[test]
fn delete_removes_the_host() {
    let a = Host::new("a", "a.lan", "u");
    let b = Host::new("b", "b.lan", "u");
    let mut w = Workspace::new(vec![a.clone(), b.clone()]);
    w.delete_host(a.id);
    assert_eq!(w.hosts, vec![b.clone()]);
    assert_eq!(w.find_host(a.id), None);
    w.delete_host(777);
    assert_eq!(w.hosts, vec![b]);
}

#[test]
fn duplicate_adds_a_copy_with_a_new_id() {
    let mut a = Host::new("a", "a.lan", "u");
    a.tags = vec!["t".to_string()];
    let mut w = Workspace::new(vec![a.clone()]);
    w.duplicate_host(&a);
    assert_eq!(w.hosts.len(), 2);
    let copy = &w.hosts[1];
    assert_ne!(copy.id, a.id);
    assert_eq!(copy.alias, "a-copy");
    assert_eq!(copy.hostname, a.hostname);
    assert_eq!(copy.tags, a.tags);
    assert_eq!(w.hosts[0], a);
}
