use nsr_ssh::connect::ConnectDialog;
use nsr_ssh::host::Host;
use nsr_ssh::panels::{HostRowAction, TabBar, TabMenuEntry, VaultPanel};
use nsr_ssh::pane::{PaneTree, Tab};
use nsr_ssh::session::{ssh_step, SessionEvent, SshStage, SshState, StepOutcome};
use nsr_ssh::terminal::{cell_paint, VtColor};
use nsr_ssh::theme::{dracula, initial_theme, nord, theme_catalog, Color};
use nsr_ssh::workspace::{connect_error_status, status_bar_text, Effect, TabBarAction, VaultAction, Workspace};

fn describe(events: &[SessionEvent]) -> Vec<String> {
    events
        .iter()
        .map(|e| match e {
            SessionEvent::Connected { session_id } => format!("connected {}", session_id),
            SessionEvent::Disconnected { session_id } => format!("disconnected {}", session_id),
            SessionEvent::Error { session_id, message } => format!("error {} {}", session_id, message),
            other => format!("{:?}", other),
        })
        .collect()
}

fn at(stage: SshStage, attempt: u32) -> SshState {
    SshState { stage, attempt }
}

/// Runs the steps from `st` with the given outcomes, collecting the reports.
fn run(mut st: SshState, outcomes: &[StepOutcome]) -> (SshState, Vec<String>) {
    let mut seen = Vec::new();
    for o in outcomes {
        let (next, events) = ssh_step(5, st, o);
        seen.extend(describe(&events));
        st = next;
    }
    (st, seen)
}

#[test]
fn ssh_steps_in_order_when_all_goes_well() {
    let mut st = at(SshStage::Connecting, 0);
    let mut seen = Vec::new();
    while st.stage != SshStage::Finished {
        let (next, events) = ssh_step(5, st, &StepOutcome::Done);
        seen.extend(describe(&events));
        st = next;
    }
    assert_eq!(seen, vec!["connected 5", "disconnected 5"]);
}

#[test]
fn ssh_step_failures_of_the_first_connection_report_and_end() {
    let fail = StepOutcome::Failed("refused".to_string());
    let (next, ev) = ssh_step(1, at(SshStage::Connecting, 0), &fail);
    assert_eq!(next, at(SshStage::Finished, 0));
    assert_eq!(describe(&ev), vec!["error 1 Falha ao conectar: refused", "disconnected 1"]);
    let (next, ev) = ssh_step(1, at(SshStage::Authenticating, 0), &fail);
    assert_eq!(next.stage, SshStage::Finished);
    assert_eq!(describe(&ev), vec!["error 1 Autenticação falhou. Verifique credenciais.", "disconnected 1"]);
    let (_, ev) = ssh_step(1, at(SshStage::OpeningChannel, 0), &fail);
    assert_eq!(describe(&ev), vec!["error 1 Falha ao abrir canal: refused", "disconnected 1"]);
    let (next, ev) = ssh_step(1, at(SshStage::RequestingPty, 0), &fail);
    assert_eq!(next, at(SshStage::StartingShell, 0));
    assert!(ev.is_empty());
    let (_, ev) = ssh_step(1, at(SshStage::StartingShell, 0), &fail);
    assert_eq!(describe(&ev), vec!["error 1 Falha ao iniciar shell: refused", "disconnected 1"]);
    let (next, ev) = ssh_step(1, at(SshStage::Finished, 0), &fail);
    assert_eq!(next, at(SshStage::Finished, 0));
    assert!(ev.is_empty());
}

#[test]
fn ended_shell_disconnects_at_once() {
    let (next, ev) = ssh_step(2, at(SshStage::Running, 0), &StepOutcome::Done);
    assert_eq!(next.stage, SshStage::Finished);
    assert_eq!(describe(&ev), vec!["disconnected 2"]);
}

#[test]
fn lost_connection_is_tried_three_times_then_ends() {
    let lost = StepOutcome::Failed("closed".to_string());
    let fail = StepOutcome::Failed("refused".to_string());
    let done = StepOutcome::Done;
    // lost, then for each attempt: wait, connect fails
    let (st, seen) = run(at(SshStage::Running, 0), &[lost, done.clone(), fail.clone(), done.clone(), fail.clone(), done, fail]);
    assert_eq!(st.stage, SshStage::Finished);
    assert_eq!(
        seen,
        vec![
            "Reconnecting { session_id: 5, attempt: 1 }",
            "Reconnecting { session_id: 5, attempt: 2 }",
            "Reconnecting { session_id: 5, attempt: 3 }",
            "error 5 Falha ao conectar: refused",
            "disconnected 5",
        ]
    );
    assert_eq!(nsr_ssh::session::RECONNECT_ATTEMPTS, 3);
    assert_eq!(nsr_ssh::session::RECONNECT_INTERVAL_SECS, 3);
}

#[test]
fn a_successful_attempt_resumes_the_session() {
    let lost = StepOutcome::Failed("closed".to_string());
    let fail = StepOutcome::Failed("refused".to_string());
    let done = StepOutcome::Done;
    let mut outs = vec![lost.clone(), done.clone(), fail];
    // second attempt: wait, then all five steps succeed
    outs.extend(vec![done.clone(); 6]);
    let (st, seen) = run(at(SshStage::Running, 0), &outs);
    assert_eq!(st, at(SshStage::Running, 0));
    assert_eq!(
        seen,
        vec![
            "Reconnecting { session_id: 5, attempt: 1 }",
            "Reconnecting { session_id: 5, attempt: 2 }",
            "connected 5",
        ]
    );
    // a later loss starts counting again from the first attempt
    let (st, seen) = run(st, &[lost]);
    assert_eq!(st, at(SshStage::Waiting, 1));
    assert_eq!(seen, vec!["Reconnecting { session_id: 5, attempt: 1 }"]);
}

#[test]
fn cell_paint_skips_default_background_and_spaces() {
    let t = dracula();
    let p = cell_paint(&VtColor::Idx(1), &VtColor::Default, false, 'a', &t);
    assert_eq!(p.background, Some(t.term_foreground));
    assert_eq!(p.glyph, Some(('a', t.ansi[1])));
    let p = cell_paint(&VtColor::Default, &VtColor::Rgb(40, 42, 54), true, ' ', &t);
    assert_eq!(p.background, None);
    assert_eq!(p.glyph, None);
    let p = cell_paint(&VtColor::Idx(2), &VtColor::Idx(21), true, 'x', &t);
    assert_eq!(p.background, Some(Color(0, 0, 255)));
    assert_eq!(p.glyph, Some(('x', t.ansi[10])));
}

#[test]
fn connect_dialog_submit_closes_only_when_filled_in() {
    let mut d = ConnectDialog::new("bob");
    d.open = true;
    assert!(d.submit().is_none());
    assert!(d.open);
    d.hostname = "h".to_string();
    let r = d.submit().unwrap();
    assert_eq!(r.host.hostname, "h");
    assert_eq!(r.host.user, "bob");
    assert!(!d.open);
}

#[test]
fn status_texts() {
    assert_eq!(status_bar_text("Dracula", 3), "Tema: Dracula | Sessões: 3");
    assert_eq!(status_bar_text("Nord", 0), "Tema: Nord | Sessões: 0");
    assert_eq!(status_bar_text("X", 1234), "Tema: X | Sessões: 1234");
    assert_eq!(connect_error_status("no route"), "Erro ao conectar: no route");
}

#[test]
fn tab_actions_on_the_workspace() {
    let host = Host::new("web", "web.lan", "u");
    let mut w = Workspace::new(vec![host.clone()]);
    let status = w.open_session_tab("web", 10);
    assert_eq!(status, "Conectando em web...");
    let tab_id = w.tabs[0].id;
    assert_eq!(w.active_tab, Some(tab_id));
    assert_eq!(format!("{:?}", w.tabs[0].pane_tree), format!("{:?}", PaneTree::Terminal(10)));

    assert!(matches!(w.apply_tab_action(&TabBarAction::New), Effect::OpenConnectDialog));
    assert!(matches!(w.apply_tab_action(&TabBarAction::OpenSettings), Effect::OpenSettings));
    match w.apply_tab_action(&TabBarAction::SplitH(tab_id)) {
        Effect::ConnectSplit { host: h, tab, vertical } => {
            assert_eq!(h, host);
            assert_eq!(tab, tab_id);
            assert!(!vertical);
        }
        other => panic!("unexpected {:?}", other),
    }
    assert!(matches!(
        w.apply_tab_action(&TabBarAction::SplitV(tab_id)),
        Effect::ConnectSplit { vertical: true, .. }
    ));
    assert!(matches!(w.apply_tab_action(&TabBarAction::SplitV(999)), Effect::Nothing));
    match w.apply_tab_action(&TabBarAction::Duplicate(tab_id)) {
        Effect::Connect(h) => assert_eq!(h, host),
        other => panic!("unexpected {:?}", other),
    }
    assert!(matches!(w.apply_tab_action(&TabBarAction::Activate(77)), Effect::Nothing));
    assert_eq!(w.active_tab, Some(77));
    w.focus_pane(11);
    assert_eq!(w.tabs[0].active_pane, 10);
    assert!(matches!(w.apply_tab_action(&TabBarAction::Activate(tab_id)), Effect::Nothing));
    w.focus_pane(11);
    assert_eq!(w.tabs[0].active_pane, 11);
    match w.apply_tab_action(&TabBarAction::Close(tab_id)) {
        Effect::Disconnect(ids) => assert_eq!(ids, vec![10]),
        other => panic!("unexpected {:?}", other),
    }
    assert!(w.tabs.is_empty());
    assert_eq!(w.active_tab, None);
    assert!(w.close_active().is_empty());
}

#[test]
fn close_active_closes_the_front_tab() {
    let mut w = Workspace::new(vec![]);
    w.open_session_tab("a", 1);
    w.open_session_tab("b", 2);
    assert_eq!(w.close_active(), vec![2]);
    assert_eq!(w.tabs.len(), 1);
    assert_eq!(w.active_tab, Some(w.tabs[0].id));
}

#[test]
fn vault_actions_on_the_workspace() {
    let a = Host::new("a", "a.lan", "u");
    let mut w = Workspace::new(vec![a.clone()]);
    let mut changed = a.clone();
    changed.port = 2222;
    assert!(matches!(w.apply_vault_action(VaultAction::Save(changed.clone())), Effect::PersistHosts));
    assert_eq!(w.hosts, vec![changed.clone()]);
    assert!(matches!(w.apply_vault_action(VaultAction::Duplicate(changed.clone())), Effect::Nothing));
    assert_eq!(w.hosts.len(), 2);
    assert_eq!(w.hosts[1].alias, "a-copy");
    assert!(matches!(w.apply_vault_action(VaultAction::Delete(a.id)), Effect::PersistHosts));
    assert_eq!(w.hosts.len(), 1);
    assert_eq!(w.hosts[0].alias, "a-copy");
    match w.apply_vault_action(VaultAction::Connect(a.clone())) {
        Effect::Connect(h) => assert_eq!(h, a),
        other => panic!("unexpected {:?}", other),
    }
    match w.apply_vault_action(VaultAction::Edit(a.clone())) {
        Effect::EditHost(h) => assert_eq!(h, a),
        other => panic!("unexpected {:?}", other),
    }
    assert!(matches!(w.apply_vault_action(VaultAction::Export), Effect::Nothing));
    assert!(matches!(w.apply_vault_action(VaultAction::Import), Effect::Nothing));
    assert!(matches!(w.apply_vault_action(VaultAction::NewBlank), Effect::Nothing));
    assert_eq!(w.hosts.len(), 1);
}

#[test]
fn tab_bar_decisions() {
    assert!(matches!(TabBar::tab_action(4, None, true, true), Some(TabBarAction::Close(4))));
    assert!(matches!(TabBar::tab_action(4, None, true, false), Some(TabBarAction::Activate(4))));
    assert!(matches!(TabBar::tab_action(4, Some(TabMenuEntry::SplitV), false, false), Some(TabBarAction::SplitV(4))));
    assert!(matches!(TabBar::tab_action(4, Some(TabMenuEntry::Close), true, false), Some(TabBarAction::Activate(4))));
    assert!(matches!(TabBar::menu_action(9, TabMenuEntry::Duplicate), TabBarAction::Duplicate(9)));
    assert!(matches!(TabBar::menu_action(9, TabMenuEntry::SplitH), TabBarAction::SplitH(9)));
    assert!(matches!(TabBar::menu_action(9, TabMenuEntry::Close), TabBarAction::Close(9)));
    assert!(TabBar::tab_action(4, None, false, true).is_none());
    assert!(TabBar::shows_close(true, false));
    assert!(TabBar::shows_close(false, true));
    assert!(!TabBar::shows_close(false, false));
    let acts = vec![Some(TabBarAction::Activate(1)), None, Some(TabBarAction::Close(2)), None];
    assert!(matches!(TabBar::bar_action(acts.clone(), false, false), Some(TabBarAction::Close(2))));
    assert!(matches!(TabBar::bar_action(acts.clone(), true, false), Some(TabBarAction::New)));
    assert!(matches!(TabBar::bar_action(acts, true, true), Some(TabBarAction::OpenSettings)));
    assert!(TabBar::bar_action(vec![None, None], false, false).is_none());
}

#[test]
fn vault_panel_decisions() {
    let a = Host::new("alpha", "a.lan", "u");
    let b = Host::new("beta", "b.lan", "u");
    let hosts = vec![a.clone(), b.clone()];
    let mut p = VaultPanel::new();
    assert_eq!(p.listed(&hosts), vec![a.id, b.id]);
    p.search = "BET".to_string();
    assert_eq!(p.listed(&hosts), vec![b.id]);
    assert_eq!(VaultPanel::row_action(Some(HostRowAction::Edit), true, true), Some(HostRowAction::Connect));
    assert_eq!(VaultPanel::row_action(Some(HostRowAction::Edit), true, false), Some(HostRowAction::Select));
    assert_eq!(VaultPanel::row_action(Some(HostRowAction::Edit), false, false), Some(HostRowAction::Edit));
    assert!(p.take_row_action(&hosts, b.id, HostRowAction::Select).is_none());
    assert_eq!(p.selected, Some(b.id));
    match p.take_row_action(&hosts, b.id, HostRowAction::Connect) {
        Some(VaultAction::Connect(h)) => assert_eq!(h, b),
        other => panic!("unexpected {:?}", other),
    }
    match p.take_row_action(&hosts, a.id, HostRowAction::Duplicate) {
        Some(VaultAction::Duplicate(h)) => assert_eq!(h, a),
        other => panic!("unexpected {:?}", other),
    }
    match p.take_row_action(&hosts, a.id, HostRowAction::Edit) {
        Some(VaultAction::Edit(h)) => assert_eq!(h, a),
        other => panic!("unexpected {:?}", other),
    }
    assert!(matches!(p.take_row_action(&hosts, 5, HostRowAction::Delete), Some(VaultAction::Delete(5))));
    assert!(p.take_row_action(&hosts, 5, HostRowAction::Connect).is_none());
    assert_eq!(p.selected, Some(b.id));
    let tags = vec!["prod".to_string(), "web".to_string(), "eu".to_string()];
    assert_eq!(VaultPanel::row_tags(&tags), vec!["#prod", "#web"]);
    assert_eq!(VaultPanel::row_tags(&vec!["x".to_string()]), vec!["#x"]);
    assert!(VaultPanel::row_tags(&vec![]).is_empty());
}

#[test]
fn theme_catalog_and_start_theme() {
    let mut mine = nord();
    mine.name = "Mine".to_string();
    let cat = theme_catalog(vec![mine]);
    let names: Vec<&str> = cat.iter().map(|t| t.name.as_str()).collect();
    assert_eq!(names, vec!["Dracula", "Nord", "Catppuccin Mocha", "Solarized Dark", "Mine"]);
    assert_eq!(initial_theme(cat).name, "Dracula");
    assert_eq!(initial_theme(vec![]).name, "Dracula");
    assert_eq!(initial_theme(vec![nord()]).name, "Nord");
}

#[test]
fn new_tab_title_and_alias() {
    let t = Tab::new("t", "a", 3);
    assert_eq!((t.title.as_str(), t.host_alias.as_str()), ("t", "a"));
}

#[test]
fn split_tab_splits_the_focused_pane() {
    let mut w = Workspace::new(vec![]);
    w.open_session_tab("a", 1);
    let id = w.tabs[0].id;
    w.split_tab(id, 2, false);
    assert_eq!(w.tabs[0].pane_tree.sessions(), vec![1, 2]);
    assert_eq!(w.tabs[0].active_pane, 2);
    w.split_tab(id, 3, true);
    assert_eq!(w.tabs[0].pane_tree.sessions(), vec![1, 2, 3]);
    assert_eq!(w.tabs[0].active_pane, 3);
    w.split_tab(12345, 9, true);
    assert_eq!(w.tabs[0].pane_tree.sessions(), vec![1, 2, 3]);
    assert_eq!(w.close_active(), vec![1, 2, 3]);
}

#[test]
fn cycle_tab_goes_round() {
    let mut w = Workspace::new(vec![]);
    w.cycle_tab(true);
    assert_eq!(w.active_tab, None);
    w.open_session_tab("a", 1);
    w.open_session_tab("b", 2);
    w.open_session_tab("c", 3);
    let ids: Vec<u128> = w.tabs.iter().map(|t| t.id).collect();
    assert_eq!(w.active_tab, Some(ids[2]));
    w.cycle_tab(true);
    assert_eq!(w.active_tab, Some(ids[0]));
    w.cycle_tab(false);
    assert_eq!(w.active_tab, Some(ids[2]));
    w.cycle_tab(false);
    assert_eq!(w.active_tab, Some(ids[1]));
    w.active_tab = None;
    w.cycle_tab(false);
    assert_eq!(w.active_tab, Some(ids[2]));
}
