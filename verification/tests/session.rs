use nsr_ssh::host::Host;
use nsr_ssh::session::{
    channel_action, key_candidates, login_steps, status_message, LoginStep, AppCommand, ChannelAction, ChannelEvent, SessionEvent,
    SessionRecord, SessionRegistry, SessionState, INITIAL_COLS, INITIAL_ROWS,
};

#[test]
fn open_adds_a_connecting_session_at_the_initial_size() {
    let mut reg = SessionRegistry::new();
    assert_eq!(reg.len(), 0);
    let a = reg.open(Host::new("a", "a.lan", "u"));
    let b = reg.open(Host::new("b", "b.lan", "u"));
    assert_ne!(a, b);
    assert_eq!(reg.len(), 2);
    assert!(reg.contains(a));
    assert_eq!(reg.find(b), Some(1));
    assert_eq!(reg.size_of(a), Some((INITIAL_COLS, INITIAL_ROWS)));
    assert_eq!((INITIAL_COLS, INITIAL_ROWS), (220, 50));
}

#[test]
fn resize_changes_only_that_session() {
    let mut reg = SessionRegistry::new();
    let a = reg.open(Host::new("a", "a.lan", "u"));
    let b = reg.open(Host::new("b", "b.lan", "u"));
    reg.apply(&AppCommand::Resize { session_id: b, cols: 100, rows: 30 });
    assert_eq!(reg.size_of(b), Some((100, 30)));
    assert_eq!(reg.size_of(a), Some((220, 50)));
    reg.apply(&AppCommand::Resize { session_id: 12345, cols: 1, rows: 1 });
    assert_eq!(reg.len(), 2);
    assert_eq!(reg.size_of(12345), None);
}

#[test]
fn disconnect_forgets_the_session() {
    let mut reg = SessionRegistry::new();
    let a = reg.open(Host::new("a", "a.lan", "u"));
    let b = reg.open(Host::new("b", "b.lan", "u"));
    reg.apply(&AppCommand::Disconnect { session_id: a });
    assert_eq!(reg.len(), 1);
    assert!(!reg.contains(a));
    assert_eq!(reg.find(b), Some(0));
    reg.apply(&AppCommand::SendInput { session_id: b, data: vec![1, 2] });
    reg.apply(&AppCommand::Connect { session_id: b });
    assert_eq!(reg.len(), 1);
}

#[test]
fn add_appends_a_record() {
    let mut reg = SessionRegistry::new();
    let rec = SessionRecord::connecting(9, Host::new("x", "x", "x"));
    assert_eq!(rec.state, SessionState::Connecting);
    assert_eq!((rec.cols, rec.rows), (220, 50));
    reg.add(rec);
    assert_eq!(reg.find(9), Some(0));
}

#[test]
fn status_messages() {
    assert_eq!(status_message(&SessionEvent::Connected { session_id: 1 }).as_deref(), Some("Conectado"));
    assert_eq!(status_message(&SessionEvent::Disconnected { session_id: 1 }).as_deref(), Some("Desconectado"));
    assert_eq!(
        status_message(&SessionEvent::Error { session_id: 1, message: "timeout".to_string() }).as_deref(),
        Some("Erro: timeout")
    );
    assert_eq!(status_message(&SessionEvent::Output { session_id: 1, data: vec![1] }), None);
    assert_eq!(status_message(&SessionEvent::Reconnecting { session_id: 1, attempt: 2 }), None);
    assert_eq!(status_message(&SessionEvent::TitleChanged { session_id: 1, title: "t".to_string() }), None);
}

#[test]
fn channel_messages_become_actions() {
    assert_eq!(channel_action(ChannelEvent::Data(vec![1, 2])), ChannelAction::Forward(vec![1, 2]));
    assert_eq!(channel_action(ChannelEvent::ExtendedData(vec![3])), ChannelAction::Forward(vec![3]));
    assert_eq!(channel_action(ChannelEvent::ExitStatus), ChannelAction::Stop);
    assert_eq!(channel_action(ChannelEvent::Closed), ChannelAction::Lost);
    assert_eq!(channel_action(ChannelEvent::Other), ChannelAction::Ignore);
}

#[test]
fn key_candidates_put_the_host_key_first() {
    let keys = key_candidates(&Some("~/.ssh/work".to_string()));
    let paths: Vec<&str> = keys.iter().map(|k| k.path.as_str()).collect();
    assert_eq!(paths, vec!["~/.ssh/work", "~/.ssh/id_ed25519", "~/.ssh/id_rsa", "~/.ssh/id_ecdsa"]);
    let flags: Vec<bool> = keys.iter().map(|k| k.only_if_present).collect();
    assert_eq!(flags, vec![false, true, true, true]);
    let keys = key_candidates(&None);
    let paths: Vec<&str> = keys.iter().map(|k| k.path.as_str()).collect();
    assert_eq!(paths, vec!["~/.ssh/id_ed25519", "~/.ssh/id_rsa", "~/.ssh/id_ecdsa"]);
    assert!(keys.iter().all(|k| k.only_if_present));
}

#[test]
fn login_tries_the_agent_first() {
    let steps = login_steps(&Some("~/.ssh/work".to_string()));
    assert!(matches!(steps[0], LoginStep::Agent));
    let keys: Vec<(String, bool)> = steps[1..]
        .iter()
        .map(|s| match s {
            LoginStep::Key(k) => (k.path.clone(), k.only_if_present),
            LoginStep::Agent => panic!("agent twice"),
        })
        .collect();
    assert_eq!(
        keys,
        vec![
            ("~/.ssh/work".to_string(), false),
            ("~/.ssh/id_ed25519".to_string(), true),
            ("~/.ssh/id_rsa".to_string(), true),
            ("~/.ssh/id_ecdsa".to_string(), true),
        ]
    );
    assert_eq!(login_steps(&None).len(), 4);
}
