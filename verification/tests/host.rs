use nsr_ssh::host::Host;

#[test]
fn new_host_defaults() {
    let h = Host::new("web", "10.0.0.1", "deploy");
    assert_eq!(h.alias, "web");
    assert_eq!(h.hostname, "10.0.0.1");
    assert_eq!(h.user, "deploy");
    assert_eq!(h.port, 22);
    assert_eq!(h.identity_file, None);
    assert!(h.tags.is_empty());
    assert_eq!(h.description, None);
    assert_ne!(h.id, Host::new("web", "10.0.0.1", "deploy").id);
}

#[test]
fn default_host() {
    let h = Host::default();
    assert_eq!(h.alias, "novo-host");
    assert_eq!(h.hostname, "192.168.1.1");
    assert_eq!(h.user, "root");
    assert_eq!(h.port, 22);
}

#[test]
fn duplicate_and_display_name() {
    let mut h = Host::new("a", "b", "c");
    h.description = Some("d".to_string());
    h.identity_file = Some("k".to_string());
    h.tags = vec!["x".to_string(), "y".to_string()];
    assert_eq!(h.duplicate(), h);
    assert_eq!(h.display_name(), "a");
}
