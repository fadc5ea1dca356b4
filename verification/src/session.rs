use vstd::prelude::*;
use crate::host::{clone_opt_string, Host};
use crate::id::new_id;
use crate::pane::SessionId;
use crate::text::push_str;

verus! {

/// Where a session stands.
#[derive(Debug, Clone, PartialEq, Eq)]
pub enum SessionState {
    Idle,
    Connecting,
    Connected,
    Disconnected,
    Reconnecting { attempt: u32 },
    Failed(String),
}

/// What the session layer reports to the interface.
#[derive(Debug, Clone)]
pub enum SessionEvent {
    Connected { session_id: SessionId },
    Disconnected { session_id: SessionId },
    Reconnecting { session_id: SessionId, attempt: u32 },
    Output { session_id: SessionId, data: Vec<u8> },
    Error { session_id: SessionId, message: String },
    TitleChanged { session_id: SessionId, title: String },
}

/// What the interface asks of the session layer.
#[derive(Debug, Clone)]
pub enum AppCommand {
    Connect { session_id: SessionId },
    Disconnect { session_id: SessionId },
    SendInput { session_id: SessionId, data: Vec<u8> },
    Resize { session_id: SessionId, cols: u16, rows: u16 },
}

/// The width a new session's terminal is opened with.
pub const INITIAL_COLS: u16 = 220;

/// The height a new session's terminal is opened with.
pub const INITIAL_ROWS: u16 = 50;

/// What the session layer keeps of one open session.
#[derive(Debug)]
pub struct SessionRecord {
    pub id: SessionId,
    pub host: Host,
    pub state: SessionState,
    pub cols: u16,
    pub rows: u16,
}

impl SessionRecord {
    /// The record of a session that has just started connecting to `host`.
    pub fn connecting(id: SessionId, host: Host) -> (r: SessionRecord)
        ensures
            r.id == id,
            r.host == host,
            r.state == SessionState::Connecting,
            r.cols == INITIAL_COLS,
            r.rows == INITIAL_ROWS,
    {
        SessionRecord { id, host, state: SessionState::Connecting, cols: INITIAL_COLS, rows: INITIAL_ROWS }
    }
}

/// `r` with the terminal size `cols` by `rows`.
pub open spec fn resized(r: SessionRecord, cols: u16, rows: u16) -> SessionRecord {
    SessionRecord { cols, rows, ..r }
}

/// The test that keeps every record but those of session `id`.
pub open spec fn not_session(id: SessionId) -> spec_fn(SessionRecord) -> bool {
    |r: SessionRecord| r.id != id
}

/// The position of the first record of session `id` in `rs`, if any.
pub open spec fn first_index(rs: Seq<SessionRecord>, id: SessionId) -> Option<int> {
    if exists|i: int| 0 <= i < rs.len() && rs[i].id == id && forall|j: int| 0 <= j < i ==> rs[j].id != id {
        Some(choose|i: int| 0 <= i < rs.len() && rs[i].id == id && forall|j: int| 0 <= j < i ==> rs[j].id != id)
    } else {
        None
    }
}

/// The records after `cmd`: a disconnect drops every record of the session; a
/// resize sets the size of its first record; other commands change nothing.
pub open spec fn after_command(rs: Seq<SessionRecord>, cmd: AppCommand) -> Seq<SessionRecord> {
    match cmd {
        AppCommand::Disconnect { session_id } => rs.filter(not_session(session_id)),
        AppCommand::Resize { session_id, cols, rows } => match first_index(rs, session_id) {
            Some(i) => rs.update(i, resized(rs[i], cols, rows)),
            None => rs,
        },
        _ => rs,
    }
}

/// The open sessions, in the order they were opened.
pub struct SessionRegistry {
    entries: Vec<SessionRecord>,
}

impl View for SessionRegistry {
    type V = Seq<SessionRecord>;

    closed spec fn view(&self) -> Seq<SessionRecord> {
        self.entries@
    }
}

impl SessionRegistry {
    /// No sessions.
    pub fn new() -> (r: SessionRegistry)
        ensures
            r@ == Seq::<SessionRecord>::empty(),
    {
        SessionRegistry { entries: Vec::new() }
    }

    /// How many sessions are open.
    pub fn len(&self) -> (n: usize)
        ensures
            n == self@.len(),
    {
        self.entries.len()
    }

    /// Opens a session to `host` under a fresh identifier: its record, still
    /// connecting and at the initial size, is added at the end.
    pub fn open(&mut self, host: Host) -> (id: SessionId)
        ensures
            final(self)@.len() == old(self)@.len() + 1,
            final(self)@.drop_last() == old(self)@,
            final(self)@.last().id == id,
            final(self)@.last().host == host,
            final(self)@.last().state == SessionState::Connecting,
            final(self)@.last().cols == INITIAL_COLS,
            final(self)@.last().rows == INITIAL_ROWS,
    {
        let id = new_id();
        let ghost pre = self.entries@;
        self.entries.push(SessionRecord::connecting(id, host));
        assert(self.entries@.drop_last() =~= pre);
        id
    }

    /// Adds a session at the end.
    pub fn add(&mut self, record: SessionRecord)
        ensures
            final(self)@ == old(self)@.push(record),
    {
        self.entries.push(record);
    }

    /// The position of the first record of session `id`.
    pub fn find(&self, id: SessionId) -> (r: Option<usize>)
        ensures
            match r {
                Some(i) => first_index(self@, id) == Some(i as int),
                None => first_index(self@, id) is None,
            },
    {
        let mut i: usize = 0;
        while i < self.entries.len()
            invariant
                0 <= i <= self.entries.len(),
                forall|j: int| 0 <= j < i ==> self.entries@[j].id != id,
            decreases self.entries.len() - i,
        {
            if self.entries[i].id == id {
                proof {
                    let rs = self@;
                    let c = choose|k: int| 0 <= k < rs.len() && rs[k].id == id && forall|j: int| 0 <= j < k ==> rs[j].id != id;
                    assert(0 <= i < rs.len() && rs[i as int].id == id && forall|j: int| 0 <= j < i ==> rs[j].id != id);
                    if c < i {
                        assert(rs[c].id != id);
                    }
                    if c > i {
                        assert(rs[i as int].id != id);
                    }
                }
                return Some(i);
            }
            i = i + 1;
        }
        None
    }

    /// Whether session `id` is open.
    pub fn contains(&self, id: SessionId) -> (b: bool)
        ensures
            b == (first_index(self@, id) is Some),
    {
        self.find(id).is_some()
    }

    /// The terminal size of session `id`, if it is open.
    pub fn size_of(&self, id: SessionId) -> (r: Option<(u16, u16)>)
        ensures
            match first_index(self@, id) {
                Some(i) => r == Some((self@[i].cols, self@[i].rows)),
                None => r is None,
            },
    {
        match self.find(id) {
            Some(i) => Some((self.entries[i].cols, self.entries[i].rows)),
            None => None,
        }
    }

    /// Carries out a command on the records.
    pub fn apply(&mut self, cmd: &AppCommand)
        ensures
            final(self)@ == after_command(old(self)@, *cmd),
    {
        match cmd {
            AppCommand::Disconnect { session_id } => {
                let id = *session_id;
                let ghost pre = self.entries@;
                let mut old_entries: Vec<SessionRecord> = Vec::new();
                std::mem::swap(&mut old_entries, &mut self.entries);
                let mut kept: Vec<SessionRecord> = Vec::new();
                for r in it: old_entries.into_iter()
                    invariant
                        it.seq() == pre,
                        kept@ == pre.take(it.index() as int).filter(not_session(id)),
                {
                    proof {
                        let k = it.index() as int;
                        assert(pre.take(k + 1) =~= pre.take(k).push(pre[k]));
                        pre.take(k).lemma_filter_push(pre[k], not_session(id));
                    }
                    if r.id != id {
                        kept.push(r);
                    }
                }
                assert(pre.take(pre.len() as int) =~= pre);
                self.entries = kept;
            },
            AppCommand::Resize { session_id, cols, rows } => {
                match self.find(*session_id) {
                    Some(i) => {
                        let ghost pre = self.entries@;
                        let mut entries: Vec<SessionRecord> = Vec::new();
                        std::mem::swap(&mut entries, &mut self.entries);
                        let mut rec = entries.remove(i);
                        rec.cols = *cols;
                        rec.rows = *rows;
                        entries.insert(i, rec);
                        assert(entries@ =~= pre.update(i as int, resized(pre[i as int], *cols, *rows)));
                        self.entries = entries;
                    },
                    None => {},
                }
            },
            _ => {},
        }
    }
}

/// The status line shown after an event: "Conectado", "Desconectado" or
/// "Erro: " and the message; other events leave the status line as it is.
pub open spec fn status_text(event: SessionEvent) -> Option<Seq<char>> {
    match event {
        SessionEvent::Connected { .. } => Some("Conectado"@),
        SessionEvent::Disconnected { .. } => Some("Desconectado"@),
        SessionEvent::Error { message, .. } => Some("Erro: "@ + message@),
        _ => None,
    }
}

/// The new status line after an event, or `None` to keep the current one.
pub fn status_message(event: &SessionEvent) -> (r: Option<String>)
    ensures
        r.deep_view() == status_text(*event),
{
    match event {
        SessionEvent::Connected { .. } => Some(String::from_str("Conectado")),
        SessionEvent::Disconnected { .. } => Some(String::from_str("Desconectado")),
        SessionEvent::Error { message, .. } => {
            let mut s = String::from_str("Erro: ");
            push_str(&mut s, message.as_str());
            Some(s)
        },
        _ => None,
    }
}

/// A message of the SSH channel, as far as the session loop tells them apart.
#[derive(Debug, Clone)]
pub enum ChannelEvent {
    Data(Vec<u8>),
    ExtendedData(Vec<u8>),
    ExitStatus,
    Closed,
    Other,
}

/// What the session loop does with a channel message.
#[derive(Debug, PartialEq, Eq)]
pub enum ChannelAction {
    Forward(Vec<u8>),
    /// The remote shell ended: the session ends.
    Stop,
    /// The channel closed without an exit status: the connection is lost.
    Lost,
    Ignore,
}

/// Output and error output go to the terminal; an exit status ends the
/// session; a channel closed without one means the connection was lost;
/// anything else is ignored.
pub fn channel_action(event: ChannelEvent) -> (a: ChannelAction)
    ensures
        match event {
            ChannelEvent::Data(d) => a == ChannelAction::Forward(d),
            ChannelEvent::ExtendedData(d) => a == ChannelAction::Forward(d),
            ChannelEvent::ExitStatus => a == ChannelAction::Stop,
            ChannelEvent::Closed => a == ChannelAction::Lost,
            ChannelEvent::Other => a == ChannelAction::Ignore,
        },
{
    match event {
        ChannelEvent::Data(d) => ChannelAction::Forward(d),
        ChannelEvent::ExtendedData(d) => ChannelAction::Forward(d),
        ChannelEvent::ExitStatus => ChannelAction::Stop,
        ChannelEvent::Closed => ChannelAction::Lost,
        ChannelEvent::Other => ChannelAction::Ignore,
    }
}

/// How many times a lost connection is tried again before the session ends.
pub const RECONNECT_ATTEMPTS: u32 = 3;

/// How many seconds pass before each new attempt.
pub const RECONNECT_INTERVAL_SECS: u64 = 3;

/// The steps of an SSH session, in the order they are taken; `Waiting` is the
/// pause before a new attempt after the connection was lost.
#[derive(Debug, Clone, Copy, PartialEq, Eq, Structural)]
pub enum SshStage {
    Connecting,
    Authenticating,
    OpeningChannel,
    RequestingPty,
    StartingShell,
    Running,
    Waiting,
    Finished,
}

/// Where a session is: its step, and which new attempt after a lost
/// connection it is making (0 for the first connection and while running).
#[derive(Debug, Clone, Copy, PartialEq, Eq, Structural)]
pub struct SshState {
    pub stage: SshStage,
    pub attempt: u32,
}

/// How a step ended: done, or failed with the error's text. For a running
/// session, done means the remote shell ended and failed that the connection
/// was lost.
#[derive(Debug, Clone)]
pub enum StepOutcome {
    Done,
    Failed(String),
}

/// What a report to the interface says, strings taken as their characters.
pub enum EventView {
    Connected(SessionId),
    Disconnected(SessionId),
    Reconnecting(SessionId, u32),
    Output(SessionId, Seq<u8>),
    Error(SessionId, Seq<char>),
    TitleChanged(SessionId, Seq<char>),
}

/// The contents of a report to the interface.
pub open spec fn event_view(e: SessionEvent) -> EventView {
    match e {
        SessionEvent::Connected { session_id } => EventView::Connected(session_id),
        SessionEvent::Disconnected { session_id } => EventView::Disconnected(session_id),
        SessionEvent::Reconnecting { session_id, attempt } => EventView::Reconnecting(session_id, attempt),
        SessionEvent::Output { session_id, data } => EventView::Output(session_id, data@),
        SessionEvent::Error { session_id, message } => EventView::Error(session_id, message@),
        SessionEvent::TitleChanged { session_id, title } => EventView::TitleChanged(session_id, title@),
    }
}

/// The error text of a failed step; `None` for a step that was done.
pub open spec fn failure(o: StepOutcome) -> Option<Seq<char>> {
    match o {
        StepOutcome::Done => None,
        StepOutcome::Failed(e) => Some(e@),
    }
}

/// The text shown when a step of connecting fails.
pub open spec fn failure_text(stage: SshStage, e: Seq<char>) -> Seq<char> {
    match stage {
        SshStage::Connecting => "Falha ao conectar: "@ + e,
        SshStage::Authenticating => "Autenticação falhou. Verifique credenciais."@,
        SshStage::OpeningChannel => "Falha ao abrir canal: "@ + e,
        _ => "Falha ao iniciar shell: "@ + e,
    }
}

/// The step after `stage` in connecting, when it was done.
pub open spec fn connect_next(stage: SshStage) -> SshStage {
    match stage {
        SshStage::Connecting => SshStage::Authenticating,
        SshStage::Authenticating => SshStage::OpeningChannel,
        SshStage::OpeningChannel => SshStage::RequestingPty,
        _ => SshStage::Running,
    }
}

/// Whether `stage` is a step of connecting whose failure counts.
pub open spec fn is_connect_step(stage: SshStage) -> bool {
    stage == SshStage::Connecting || stage == SshStage::Authenticating || stage == SshStage::OpeningChannel
        || stage == SshStage::StartingShell
}

/// Where a session goes after a step of `st` that ended as `failed` says, and
/// what the interface is told of it:
/// - a step of connecting that is done leads to the next; a started shell
///   reports the connection and ends any series of attempts;
/// - a failed step of the first connection, or of the last attempt, reports the
///   error, then the disconnection, and ends the session; a failed earlier
///   attempt reports the next attempt and waits;
/// - the terminal request goes on to the shell whatever its outcome;
/// - a running session whose shell ended reports the disconnection and ends;
///   one whose connection was lost reports the first attempt and waits;
/// - after the pause, connecting starts again.
pub open spec fn ssh_transition(id: SessionId, st: SshState, failed: Option<Seq<char>>) -> (SshState, Seq<EventView>) {
    let stage = st.stage;
    let k = st.attempt;
    if is_connect_step(stage) {
        match failed {
            None => if stage == SshStage::StartingShell {
                (SshState { stage: SshStage::Running, attempt: 0 }, seq![EventView::Connected(id)])
            } else {
                (SshState { stage: connect_next(stage), attempt: k }, Seq::empty())
            },
            Some(e) => if 0 < k && k < RECONNECT_ATTEMPTS {
                (SshState { stage: SshStage::Waiting, attempt: (k + 1) as u32 }, seq![EventView::Reconnecting(id, (k + 1) as u32)])
            } else {
                (
                    SshState { stage: SshStage::Finished, attempt: k },
                    seq![EventView::Error(id, failure_text(stage, e)), EventView::Disconnected(id)],
                )
            },
        }
    } else if stage == SshStage::RequestingPty {
        (SshState { stage: SshStage::StartingShell, attempt: k }, Seq::empty())
    } else if stage == SshStage::Running {
        match failed {
            None => (SshState { stage: SshStage::Finished, attempt: 0 }, seq![EventView::Disconnected(id)]),
            Some(_) => (SshState { stage: SshStage::Waiting, attempt: 1 }, seq![EventView::Reconnecting(id, 1)]),
        }
    } else if stage == SshStage::Waiting {
        (SshState { stage: SshStage::Connecting, attempt: k }, Seq::empty())
    } else {
        (st, Seq::empty())
    }
}

/// The error report of session `id` with the text `prefix` followed by `e`.
fn error_event(id: SessionId, prefix: &str, e: &str) -> (ev: SessionEvent)
    ensures
        event_view(ev) == EventView::Error(id, prefix@ + e@),
{
    let mut message = String::from_str(prefix);
    push_str(&mut message, e);
    SessionEvent::Error { session_id: id, message }
}

/// The report of a failed step of connecting.
fn failure_event(id: SessionId, stage: SshStage, e: &str) -> (ev: SessionEvent)
    requires
        is_connect_step(stage),
    ensures
        event_view(ev) == EventView::Error(id, failure_text(stage, e@)),
{
    match stage {
        SshStage::Connecting => error_event(id, "Falha ao conectar: ", e),
        SshStage::Authenticating => SessionEvent::Error {
            session_id: id,
            message: String::from_str("Autenticação falhou. Verifique credenciais."),
        },
        SshStage::OpeningChannel => error_event(id, "Falha ao abrir canal: ", e),
        _ => error_event(id, "Falha ao iniciar shell: ", e),
    }
}

/// Takes the outcome of a step of session `id`: gives where the session is
/// next and what to report to the interface, in order.
pub fn ssh_step(id: SessionId, st: SshState, outcome: &StepOutcome) -> (r: (SshState, Vec<SessionEvent>))
    ensures
        r.0 == ssh_transition(id, st, failure(*outcome)).0,
        r.1@.map_values(|e: SessionEvent| event_view(e)) == ssh_transition(id, st, failure(*outcome)).1,
{
    let stage = st.stage;
    let k = st.attempt;
    let mut events: Vec<SessionEvent> = Vec::new();
    let connect_step = match stage {
        SshStage::Connecting | SshStage::Authenticating | SshStage::OpeningChannel | SshStage::StartingShell => true,
        _ => false,
    };
    let next = if connect_step {
        match outcome {
            StepOutcome::Done => match stage {
                SshStage::StartingShell => {
                    events.push(SessionEvent::Connected { session_id: id });
                    SshState { stage: SshStage::Running, attempt: 0 }
                },
                SshStage::Connecting => SshState { stage: SshStage::Authenticating, attempt: k },
                SshStage::Authenticating => SshState { stage: SshStage::OpeningChannel, attempt: k },
                _ => SshState { stage: SshStage::RequestingPty, attempt: k },
            },
            StepOutcome::Failed(e) => {
                if 0 < k && k < RECONNECT_ATTEMPTS {
                    events.push(SessionEvent::Reconnecting { session_id: id, attempt: k + 1 });
                    SshState { stage: SshStage::Waiting, attempt: k + 1 }
                } else {
                    events.push(failure_event(id, stage, e.as_str()));
                    events.push(SessionEvent::Disconnected { session_id: id });
                    SshState { stage: SshStage::Finished, attempt: k }
                }
            },
        }
    } else {
        match stage {
            SshStage::RequestingPty => SshState { stage: SshStage::StartingShell, attempt: k },
            SshStage::Running => match outcome {
                StepOutcome::Done => {
                    events.push(SessionEvent::Disconnected { session_id: id });
                    SshState { stage: SshStage::Finished, attempt: 0 }
                },
                StepOutcome::Failed(_) => {
                    events.push(SessionEvent::Reconnecting { session_id: id, attempt: 1 });
                    SshState { stage: SshStage::Waiting, attempt: 1 }
                },
            },
            SshStage::Waiting => SshState { stage: SshStage::Connecting, attempt: k },
            _ => st,
        }
    };
    assert(events@.map_values(|e: SessionEvent| event_view(e)) =~= ssh_transition(id, st, failure(*outcome)).1);
    (next, events)
}

/// A failure of the first connection reports the error, then the
/// disconnection, and ends the session.
pub proof fn law_first_connection_failure_ends(id: SessionId, stage: SshStage, e: Seq<char>)
    requires
        is_connect_step(stage),
    ensures
        ssh_transition(id, SshState { stage, attempt: 0 }, Some(e)) == (
            SshState { stage: SshStage::Finished, attempt: 0 },
            seq![EventView::Error(id, failure_text(stage, e)), EventView::Disconnected(id)],
        ),
{
}

/// A lost connection is tried again at most three times: the attempt number
/// never passes three, each new attempt is announced with its number, and a
/// failure of the third attempt reports the error, then the disconnection,
/// and ends the session.
pub proof fn law_reconnection_is_bounded(id: SessionId, st: SshState, failed: Option<Seq<char>>)
    requires
        st.attempt <= RECONNECT_ATTEMPTS,
    ensures
        ssh_transition(id, st, failed).0.attempt <= RECONNECT_ATTEMPTS,
        forall|i: int| 0 <= i < ssh_transition(id, st, failed).1.len() ==>
            (#[trigger] ssh_transition(id, st, failed).1[i] matches EventView::Reconnecting(_, a)
                ==> 1 <= a <= RECONNECT_ATTEMPTS && a == ssh_transition(id, st, failed).0.attempt),
        st.attempt == RECONNECT_ATTEMPTS && is_connect_step(st.stage) && failed is Some ==> {
            &&& ssh_transition(id, st, failed).0.stage == SshStage::Finished
            &&& ssh_transition(id, st, failed).1.last() == EventView::Disconnected(id)
        },
{
}

/// What the interface is told over a run of session `id` from `st`, the
/// steps ending as `outs` says (`None`: done; `Some(e)`: failed with `e`), up
/// to the end of the session.
pub open spec fn run_reports(id: SessionId, st: SshState, outs: Seq<Option<Seq<char>>>) -> Seq<EventView>
    decreases outs.len(),
{
    if st.stage == SshStage::Finished || outs.len() == 0 {
        Seq::empty()
    } else {
        ssh_transition(id, st, outs[0]).1 + run_reports(id, ssh_transition(id, st, outs[0]).0, outs.drop_first())
    }
}

/// In `r`, a disconnection can only come last, and every error is followed
/// at once by the disconnection.
pub open spec fn disconnection_last(id: SessionId, r: Seq<EventView>) -> bool {
    &&& forall|i: int| 0 <= i < r.len() - 1 ==> !(#[trigger] r[i] is Disconnected)
    &&& forall|i: int| 0 <= i < r.len() && (#[trigger] r[i] is Error) ==> i + 1 < r.len() && r[i + 1] == EventView::Disconnected(id)
}

/// A step that reports a disconnection ends the session, and reports it last.
proof fn lemma_transition_disconnects(id: SessionId, st: SshState, failed: Option<Seq<char>>)
    ensures
        disconnection_last(id, ssh_transition(id, st, failed).1),
        (exists|i: int| 0 <= i < ssh_transition(id, st, failed).1.len() && (#[trigger] ssh_transition(id, st, failed).1[i] is Disconnected))
            ==> ssh_transition(id, st, failed).0.stage == SshStage::Finished,
{
}

/// Over any run, the interface is told of the disconnection at most once, and
/// last; an error is always followed at once by the disconnection.
pub proof fn law_run_disconnects_last(id: SessionId, st: SshState, outs: Seq<Option<Seq<char>>>)
    ensures
        disconnection_last(id, run_reports(id, st, outs)),
    decreases outs.len(),
{
    if st.stage != SshStage::Finished && outs.len() > 0 {
        let (next, here) = ssh_transition(id, st, outs[0]);
        let rest = outs.drop_first();
        let tail = run_reports(id, next, rest);
        let r = run_reports(id, st, outs);
        assert(r == here + tail);
        lemma_transition_disconnects(id, st, outs[0]);
        law_run_disconnects_last(id, next, rest);
        if exists|i: int| 0 <= i < here.len() && (#[trigger] here[i] is Disconnected) {
            assert(next.stage == SshStage::Finished);
            assert(tail == Seq::<EventView>::empty());
            assert(r =~= here);
        } else {
            assert forall|i: int| 0 <= i < r.len() - 1 implies !(#[trigger] r[i] is Disconnected) by {
                if i < here.len() {
                    assert(r[i] == here[i]);
                } else {
                    assert(r[i] == tail[i - here.len()]);
                }
            }
            assert forall|i: int| 0 <= i < r.len() && (#[trigger] r[i] is Error) implies i + 1 < r.len()
                && r[i + 1] == EventView::Disconnected(id) by {
                if i < here.len() {
                    assert(r[i] == here[i]);
                    assert(r[i + 1] == here[i + 1]);
                } else {
                    assert(r[i] == tail[i - here.len()]);
                    assert(r[i + 1] == tail[i + 1 - here.len()]);
                }
            }
        }
    }
}

/// A private key to try when logging in: its path as written (`~` not yet
/// expanded), and whether it is tried only if the file exists.
#[derive(Debug, Clone)]
pub struct KeyCandidate {
    pub path: String,
    pub only_if_present: bool,
}

/// The default keys tried after the host's own key, in order.
pub open spec fn default_keys() -> Seq<Seq<char>> {
    seq!["~/.ssh/id_ed25519"@, "~/.ssh/id_rsa"@, "~/.ssh/id_ecdsa"@]
}

/// The keys to try, in order: the host's key file if it has one, then the
/// default keys that are present.
pub fn key_candidates(identity_file: &Option<String>) -> (v: Vec<KeyCandidate>)
    ensures
        v@.len() == default_keys().len() + if identity_file is Some { 1int } else { 0 },
        forall|i: int|
            0 <= i < v@.len() ==> #[trigger] v@[i].path@ == (match identity_file.deep_view() {
                Some(f) => seq![f] + default_keys(),
                None => default_keys(),
            })[i],
        forall|i: int|
            0 <= i < v@.len() ==> #[trigger] v@[i].only_if_present == !(i == 0 && identity_file is Some),
{
    let mut v: Vec<KeyCandidate> = Vec::new();
    match clone_opt_string(identity_file) {
        Some(f) => v.push(KeyCandidate { path: f, only_if_present: false }),
        None => {},
    }
    v.push(KeyCandidate { path: String::from_str("~/.ssh/id_ed25519"), only_if_present: true });
    v.push(KeyCandidate { path: String::from_str("~/.ssh/id_rsa"), only_if_present: true });
    v.push(KeyCandidate { path: String::from_str("~/.ssh/id_ecdsa"), only_if_present: true });
    v
}

/// One way of logging in: through the keys the SSH agent holds, or with a key file.
#[derive(Debug, Clone)]
pub enum LoginStep {
    Agent,
    Key(KeyCandidate),
}

/// The key files tried, in order: the host's key file if it has one, then the
/// default keys.
pub open spec fn key_paths(identity_file: Option<Seq<char>>) -> Seq<Seq<char>> {
    match identity_file {
        Some(f) => seq![f] + default_keys(),
        None => default_keys(),
    }
}

/// The ways of logging in, in the order they are tried: the SSH agent first,
/// then the host's key file if it has one, then the default keys that are present.
pub fn login_steps(identity_file: &Option<String>) -> (v: Vec<LoginStep>)
    ensures
        v@.len() == 1 + key_paths(identity_file.deep_view()).len(),
        v@[0] is Agent,
        forall|i: int|
            1 <= i < v@.len() ==> (#[trigger] v@[i] matches LoginStep::Key(k) && k.path@ == key_paths(
                identity_file.deep_view(),
            )[i - 1] && k.only_if_present == !(i == 1 && identity_file is Some)),
{
    let mut v: Vec<LoginStep> = Vec::new();
    v.push(LoginStep::Agent);
    match clone_opt_string(identity_file) {
        Some(f) => v.push(LoginStep::Key(KeyCandidate { path: f, only_if_present: false })),
        None => {},
    }
    v.push(LoginStep::Key(KeyCandidate { path: String::from_str("~/.ssh/id_ed25519"), only_if_present: true }));
    v.push(LoginStep::Key(KeyCandidate { path: String::from_str("~/.ssh/id_rsa"), only_if_present: true }));
    v.push(LoginStep::Key(KeyCandidate { path: String::from_str("~/.ssh/id_ecdsa"), only_if_present: true }));
    v
}

/// After a disconnect no record of the session is left, and the other records
/// stay, in their order.
pub proof fn law_disconnect_forgets(rs: Seq<SessionRecord>, id: SessionId)
    ensures
        first_index(after_command(rs, AppCommand::Disconnect { session_id: id }), id) is None,
        after_command(rs, AppCommand::Disconnect { session_id: id }) == rs.filter(not_session(id)),
{
    let out = rs.filter(not_session(id));
    assert forall|i: int| !(0 <= i < out.len() && out[i].id == id && forall|j: int| 0 <= j < i ==> out[j].id != id) by {
        if 0 <= i < out.len() {
            rs.lemma_filter_pred(not_session(id), i);
        }
    }
}

/// After a resize of an open session, its record reports the new size, and no
/// other record changes.
pub proof fn law_resize_then_size(rs: Seq<SessionRecord>, id: SessionId, cols: u16, rows: u16)
    requires
        first_index(rs, id) is Some,
    ensures
        ({
            let out = after_command(rs, AppCommand::Resize { session_id: id, cols, rows });
            let i = first_index(rs, id)->0;
            &&& first_index(out, id) == Some(i)
            &&& out[i].cols == cols
            &&& out[i].rows == rows
            &&& out.len() == rs.len()
            &&& forall|j: int| 0 <= j < rs.len() && j != i ==> out[j] == rs[j]
        }),
{
    let i = first_index(rs, id)->0;
    let out = after_command(rs, AppCommand::Resize { session_id: id, cols, rows });
    assert(0 <= i < rs.len() && rs[i].id == id && forall|j: int| 0 <= j < i ==> rs[j].id != id);
    assert(0 <= i < out.len() && out[i].id == id && forall|j: int| 0 <= j < i ==> out[j].id != id);
    let c = choose|k: int| 0 <= k < out.len() && out[k].id == id && forall|j: int| 0 <= j < k ==> out[j].id != id;
    if c < i {
        assert(out[c] == rs[c]);
    }
    if c > i {
        assert(out[i].id == id);
    }
}

} // verus!
