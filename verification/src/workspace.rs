use vstd::prelude::*;
use crate::host::{Host, HostView};
use crate::id::new_id;
use crate::pane::{law_split_h_sessions, law_split_v_sessions, lemma_expand_shows_new, PaneTree, SessionId, Tab};
use crate::text::{all_ascii, ascii_lowercase, decimal, lowercase, push_decimal, push_str, str_eq, to_chars, to_lowercase};

verus! {

/// What the tab bar asks for.
#[derive(Debug, Clone)]
pub enum TabBarAction {
    Activate(u128),
    Close(u128),
    New,
    Duplicate(u128),
    SplitH(u128),
    SplitV(u128),
    OpenSettings,
}

/// What the vault panel asks for.
#[derive(Debug, Clone)]
pub enum VaultAction {
    Connect(Host),
    Edit(Host),
    NewBlank,
    Save(Host),
    Duplicate(Host),
    Delete(u128),
    Export,
    Import,
}

/// The open tabs, the tab in front, and the vault's hosts.
pub struct Workspace {
    pub tabs: Vec<Tab>,
    pub active_tab: Option<u128>,
    pub hosts: Vec<Host>,
}

/// The position of the first tab `id` in `tabs`.
pub open spec fn tab_position(tabs: Seq<Tab>, id: u128) -> Option<int> {
    if exists|i: int| 0 <= i < tabs.len() && tabs[i].id == id && forall|j: int| 0 <= j < i ==> tabs[j].id != id {
        Some(choose|i: int| 0 <= i < tabs.len() && tabs[i].id == id && forall|j: int| 0 <= j < i ==> tabs[j].id != id)
    } else {
        None
    }
}

/// The position of the first host `id` in `hosts`.
pub open spec fn host_position(hosts: Seq<Host>, id: u128) -> Option<int> {
    if exists|i: int| 0 <= i < hosts.len() && hosts[i].id == id && forall|j: int| 0 <= j < i ==> hosts[j].id != id {
        Some(choose|i: int| 0 <= i < hosts.len() && hosts[i].id == id && forall|j: int| 0 <= j < i ==> hosts[j].id != id)
    } else {
        None
    }
}

/// The position of the first host with the alias `alias` in `hosts`.
pub open spec fn alias_position(hosts: Seq<Host>, alias: Seq<char>) -> Option<int> {
    if exists|i: int| 0 <= i < hosts.len() && hosts[i].alias@ == alias && forall|j: int| 0 <= j < i ==> hosts[j].alias@ != alias {
        Some(choose|i: int| 0 <= i < hosts.len() && hosts[i].alias@ == alias && forall|j: int| 0 <= j < i ==> hosts[j].alias@ != alias)
    } else {
        None
    }
}

/// The tab in front after the tabs have become `tabs`: the last one, if any.
pub open spec fn last_tab_id(tabs: Seq<Tab>) -> Option<u128> {
    if tabs.len() == 0 {
        None
    } else {
        Some(tabs.last().id)
    }
}

/// The test that keeps every host but those with the identifier `id`.
pub open spec fn other_host(id: u128) -> spec_fn(Host) -> bool {
    |h: Host| h.id != id
}

/// The copy the vault makes of a host: the same contents, the alias with `-copy` added.
pub open spec fn copied(h: HostView) -> HostView {
    HostView { id: 0, alias: h.alias + "-copy"@, ..h }
}

/// `needle` occurs in `hay`.
pub open spec fn occurs_in(needle: Seq<char>, hay: Seq<char>) -> bool {
    exists|i: int| 0 <= i && i + needle.len() <= hay.len() && #[trigger] hay.subrange(i, i + needle.len()) == needle
}

/// A host is listed for the lowercased search text `q`: `q` is empty, or occurs in
/// the lowercased alias, address or one of the tags.
pub open spec fn host_matches(h: HostView, q: Seq<char>) -> bool {
    ||| q.len() == 0
    ||| occurs_in(q, lowercase(h.alias))
    ||| occurs_in(q, lowercase(h.hostname))
    ||| exists|k: int| 0 <= k < h.tags.len() && occurs_in(q, lowercase(#[trigger] h.tags[k]))
}

/// The identifiers of the hosts `hs` that are listed for the lowercased search text `q`, in order.
pub open spec fn matching_ids(hs: Seq<Host>, q: Seq<char>) -> Seq<u128>
    decreases hs.len(),
{
    if hs.len() == 0 {
        Seq::empty()
    } else {
        matching_ids(hs.drop_last(), q) + if host_matches(hs.last()@, q) {
            seq![hs.last().id]
        } else {
            Seq::<u128>::empty()
        }
    }
}

/// Whether `needle` occurs in `hay`.
fn occurs(needle: &Vec<char>, hay: &Vec<char>) -> (b: bool)
    ensures
        b == occurs_in(needle@, hay@),
{
    if needle.len() > hay.len() {
        return false;
    }
    let last = hay.len() - needle.len();
    let mut i: usize = 0;
    while i <= last
        invariant
            last == hay.len() - needle.len(),
            needle.len() <= hay.len(),
            0 <= i <= last + 1,
            forall|k: int| 0 <= k < i ==> #[trigger] hay@.subrange(k, k + needle@.len()) != needle@,
        decreases last + 1 - i,
    {
        let mut j: usize = 0;
        let mut same = true;
        while j < needle.len()
            invariant
                0 <= j <= needle.len(),
                i + needle.len() <= hay.len(),
                same == forall|m: int| 0 <= m < j ==> hay@[i + m] == needle@[m],
            decreases needle.len() - j,
        {
            if hay[i + j] != needle[j] {
                same = false;
            }
            j = j + 1;
        }
        if same {
            assert(hay@.subrange(i as int, i + needle@.len()) =~= needle@);
            return true;
        }
        proof {
            let w = choose|m: int| 0 <= m < needle.len() && hay@[i + m] != needle@[m];
            assert(hay@.subrange(i as int, i + needle@.len())[w] != needle@[w]);
        }
        i = i + 1;
    }
    proof {
        assert forall|k: int| 0 <= k && k + needle@.len() <= hay@.len() implies #[trigger] hay@.subrange(
            k,
            k + needle@.len(),
        ) != needle@ by {
            assert(k < i);
        }
    }
    false
}

/// Whether `q` occurs in the lowercased `s`.
fn occurs_lowered(q: &Vec<char>, s: &String) -> (b: bool)
    ensures
        b == occurs_in(q@, lowercase(s@)),
{
    let low = to_lowercase(s.as_str());
    let lc = to_chars(low.as_str());
    occurs(q, &lc)
}

/// Whether the host is listed for the lowercased search text `q`.
fn matches(h: &Host, q: &Vec<char>) -> (b: bool)
    ensures
        b == host_matches(h@, q@),
{
    if q.len() == 0 {
        return true;
    }
    if occurs_lowered(q, &h.alias) || occurs_lowered(q, &h.hostname) {
        return true;
    }
    let mut k: usize = 0;
    while k < h.tags.len()
        invariant
            0 <= k <= h.tags.len(),
            forall|m: int| 0 <= m < k ==> !occurs_in(q@, lowercase(#[trigger] h@.tags[m])),
        decreases h.tags.len() - k,
    {
        if occurs_lowered(q, &h.tags[k]) {
            assert(h@.tags[k as int] == h.tags@[k as int]@);
            return true;
        }
        assert(h@.tags[k as int] == h.tags@[k as int]@);
        k = k + 1;
    }
    false
}

/// The identifiers of the hosts listed for a search text, in order: those whose
/// alias, address or a tag contains the text, compared in lowercase.
pub fn matching_hosts(hosts: &Vec<Host>, query: &str) -> (ids: Vec<u128>)
    ensures
        ids@ == matching_ids(hosts@, lowercase(query@)),
{
    let low = to_lowercase(query);
    let q = to_chars(low.as_str());
    let mut ids: Vec<u128> = Vec::new();
    let mut i: usize = 0;
    while i < hosts.len()
        invariant
            0 <= i <= hosts.len(),
            q@ == lowercase(query@),
            ids@ == matching_ids(hosts@.take(i as int), q@),
        decreases hosts.len() - i,
    {
        assert(hosts@.take(i + 1).drop_last() =~= hosts@.take(i as int));
        if matches(&hosts[i], &q) {
            ids.push(hosts[i].id);
        }
        assert(ids@ =~= matching_ids(hosts@.take(i + 1), q@));
        i = i + 1;
    }
    assert(hosts@.take(hosts.len() as int) =~= hosts@);
    ids
}

/// "Conectando em " and the alias, then "...".
pub open spec fn connecting_text(alias: Seq<char>) -> Seq<char> {
    "Conectando em "@ + alias + "..."@
}

/// The status line while a host is being connected to.
pub fn connecting_status(alias: &str) -> (s: String)
    ensures
        s@ == connecting_text(alias@),
{
    let mut s = String::new();
    push_str(&mut s, "Conectando em ");
    push_str(&mut s, alias);
    push_str(&mut s, "...");
    s
}

/// The position of the first host with the identifier `id`.
pub fn host_index(hosts: &Vec<Host>, id: u128) -> (r: Option<usize>)
    ensures
        match r {
            Some(i) => host_position(hosts@, id) == Some(i as int),
            None => host_position(hosts@, id) is None,
        },
{
    let mut i: usize = 0;
    while i < hosts.len()
        invariant
            0 <= i <= hosts.len(),
            forall|j: int| 0 <= j < i ==> hosts@[j].id != id,
        decreases hosts.len() - i,
    {
        if hosts[i].id == id {
            proof {
                let hs = hosts@;
                let c = choose|k: int| 0 <= k < hs.len() && hs[k].id == id && forall|j: int| 0 <= j < k ==> hs[j].id != id;
                assert(0 <= i < hs.len() && hs[i as int].id == id && forall|j: int| 0 <= j < i ==> hs[j].id != id);
                if c < i {
                    assert(hs[c].id != id);
                }
                if c > i {
                    assert(hs[i as int].id != id);
                }
            }
            return Some(i);
        }
        i = i + 1;
    }
    None
}

/// "Tema: " and the theme's name, then " | Sessões: " and the number of open tabs.
pub open spec fn status_bar_spec(theme_name: Seq<char>, sessions: nat) -> Seq<char> {
    "Tema: "@ + theme_name + " | Sessões: "@ + decimal(sessions)
}

/// The right-hand text of the status bar.
pub fn status_bar_text(theme_name: &str, sessions: usize) -> (s: String)
    ensures
        s@ == status_bar_spec(theme_name@, sessions as nat),
{
    let mut s = String::new();
    push_str(&mut s, "Tema: ");
    push_str(&mut s, theme_name);
    push_str(&mut s, " | Sessões: ");
    push_decimal(&mut s, sessions as u64);
    s
}

/// The status line after a connection could not be started, with the error's text.
pub fn connect_error_status(error: &str) -> (s: String)
    ensures
        s@ == "Erro ao conectar: "@ + error@,
{
    let mut s = String::new();
    push_str(&mut s, "Erro ao conectar: ");
    push_str(&mut s, error);
    s
}

/// What the program is to do after the workspace took an action.
#[derive(Debug)]
pub enum Effect {
    Nothing,
    /// Disconnect these sessions and drop their terminals.
    Disconnect(Vec<SessionId>),
    OpenConnectDialog,
    OpenSettings,
    Connect(Host),
    /// Connect to the host and show the new session in a split of the tab's
    /// focused pane (side by side, or one above the other when `vertical`).
    ConnectSplit { host: Host, tab: u128, vertical: bool },
    /// Write the vault's hosts to disk.
    PersistHosts,
    EditHost(Host),
}

/// The tabs are consistent: with no tabs none is in front; the tab in front
/// is one of the tabs; each tab's focused pane is one of its panes.
pub open spec fn tabs_consistent(tabs: Seq<Tab>, active: Option<u128>) -> bool {
    &&& (tabs.len() == 0 ==> active is None)
    &&& (active matches Some(a) ==> exists|i: int| 0 <= i < tabs.len() && #[trigger] tabs[i].id == a)
    &&& forall|i: int| 0 <= i < tabs.len() ==> (#[trigger] tabs[i]).pane_tree.leaves().contains(tabs[i].active_pane)
}

/// What a split asked of tab `id` leaves the program to do: connect to the
/// tab's host (the first host with its alias) and split the tab, or nothing
/// where there is no such tab or host.
pub open spec fn split_effect(tabs: Seq<Tab>, hosts: Seq<Host>, id: u128, vertical: bool, e: Effect) -> bool {
    match tab_position(tabs, id) {
        Some(p) => match alias_position(hosts, tabs[p].host_alias@) {
            Some(i) => e matches Effect::ConnectSplit { host, tab, vertical: v } && host@ == hosts[i]@ && tab == id
                && v == vertical,
            None => e is Nothing,
        },
        None => e is Nothing,
    }
}

/// The tab in front after Ctrl+Tab (`forward`) or Ctrl+Shift+Tab: the next
/// (previous) tab after the one in front, going round; the first (last) tab
/// if none of them is in front.
pub open spec fn cycled(tabs: Seq<Tab>, active: Option<u128>, forward: bool) -> Option<u128> {
    let n = tabs.len() as int;
    if n == 0 {
        active
    } else {
        let pos = match active {
            Some(a) => tab_position(tabs, a),
            None => None,
        };
        let next = match pos {
            Some(p) => if forward {
                if p + 1 < n { p + 1 } else { 0 }
            } else {
                if p > 0 { p - 1 } else { n - 1 }
            },
            None => if forward { 0 } else { n - 1 },
        };
        Some(tabs[next].id)
    }
}

/// Removing a tab and bringing the last remaining one to the front keeps the
/// tabs consistent.
proof fn lemma_remove_consistent(tabs: Seq<Tab>, active: Option<u128>, p: int)
    requires
        tabs_consistent(tabs, active),
        0 <= p < tabs.len(),
    ensures
        tabs_consistent(tabs.remove(p), last_tab_id(tabs.remove(p))),
{
    let r = tabs.remove(p);
    assert forall|i: int| 0 <= i < r.len() implies (#[trigger] r[i]).pane_tree.leaves().contains(r[i].active_pane) by {
        if i < p {
            assert(r[i] == tabs[i]);
        } else {
            assert(r[i] == tabs[i + 1]);
        }
    }
    if r.len() > 0 {
        assert(r[r.len() - 1].id == r.last().id);
    }
}

impl Workspace {
    /// Whether the workspace's tabs are consistent.
    pub open spec fn tabs_ok(&self) -> bool {
        tabs_consistent(self.tabs@, self.active_tab)
    }

    /// No tabs and the given hosts.
    pub fn new(hosts: Vec<Host>) -> (w: Workspace)
        ensures
            w.tabs@.len() == 0,
            w.active_tab is None,
            w.hosts == hosts,
            w.tabs_ok(),
    {
        Workspace { tabs: Vec::new(), active_tab: None, hosts }
    }

    /// Adds a tab at the end and brings it to the front.
    pub fn open_tab(&mut self, tab: Tab)
        ensures
            final(self).tabs@ == old(self).tabs@.push(tab),
            final(self).active_tab == Some(tab.id),
            final(self).hosts == old(self).hosts,
            old(self).tabs_ok() && tab.pane_tree.leaves().contains(tab.active_pane) ==> final(self).tabs_ok(),
    {
        let id = tab.id;
        let ghost pre = self.tabs@;
        let ghost t0 = tab;
        self.tabs.push(tab);
        self.active_tab = Some(id);
        proof {
            let t = self.tabs@;
            assert(t[t.len() - 1] == t0);
            if tabs_consistent(pre, old(self).active_tab) && t0.pane_tree.leaves().contains(t0.active_pane) {
                assert forall|i: int| 0 <= i < t.len() implies (#[trigger] t[i]).pane_tree.leaves().contains(
                    t[i].active_pane,
                ) by {
                    if i < pre.len() {
                        assert(t[i] == pre[i]);
                    }
                }
            }
        }
    }

    /// The position of the first tab `id`.
    pub fn find_tab(&self, id: u128) -> (r: Option<usize>)
        ensures
            match r {
                Some(i) => tab_position(self.tabs@, id) == Some(i as int),
                None => tab_position(self.tabs@, id) is None,
            },
    {
        let mut i: usize = 0;
        while i < self.tabs.len()
            invariant
                0 <= i <= self.tabs.len(),
                forall|j: int| 0 <= j < i ==> self.tabs@[j].id != id,
            decreases self.tabs.len() - i,
        {
            if self.tabs[i].id == id {
                proof {
                    let ts = self.tabs@;
                    let c = choose|k: int| 0 <= k < ts.len() && ts[k].id == id && forall|j: int| 0 <= j < k ==> ts[j].id != id;
                    assert(0 <= i < ts.len() && ts[i as int].id == id && forall|j: int| 0 <= j < i ==> ts[j].id != id);
                    if c < i {
                        assert(ts[c].id != id);
                    }
                    if c > i {
                        assert(ts[i as int].id != id);
                    }
                }
                return Some(i);
            }
            i = i + 1;
        }
        None
    }

    /// Closes tab `tab_id`: removes it, brings the last remaining tab to the
    /// front, and gives the sessions it showed, which are then to be
    /// disconnected. An unknown tab changes nothing and gives no sessions.
    pub fn close_tab(&mut self, tab_id: u128) -> (closed: Vec<SessionId>)
        ensures
            final(self).hosts == old(self).hosts,
            old(self).tabs_ok() ==> final(self).tabs_ok(),
            match tab_position(old(self).tabs@, tab_id) {
                Some(p) => {
                    &&& final(self).tabs@ == old(self).tabs@.remove(p)
                    &&& final(self).active_tab == last_tab_id(final(self).tabs@)
                    &&& closed@ == old(self).tabs@[p].pane_tree.leaves()
                },
                None => {
                    &&& final(self).tabs@ == old(self).tabs@
                    &&& final(self).active_tab == old(self).active_tab
                    &&& closed@.len() == 0
                },
            },
    {
        match self.find_tab(tab_id) {
            Some(pos) => {
                proof {
                    if self.tabs_ok() {
                        lemma_remove_consistent(self.tabs@, self.active_tab, pos as int);
                    }
                }
                let tab = self.tabs.remove(pos);
                let closed = tab.pane_tree.sessions();
                let n = self.tabs.len();
                self.active_tab = if n == 0 {
                    None
                } else {
                    Some(self.tabs[n - 1].id)
                };
                closed
            },
            None => Vec::new(),
        }
    }

    /// The host to open another connection to for tab `tab_id`: the first host
    /// whose alias is the tab's host alias.
    pub fn host_for_tab(&self, tab_id: u128) -> (h: Option<Host>)
        ensures
            match tab_position(self.tabs@, tab_id) {
                Some(p) => match alias_position(self.hosts@, self.tabs@[p].host_alias@) {
                    Some(i) => h matches Some(x) && x@ == self.hosts@[i]@,
                    None => h is None,
                },
                None => h is None,
            },
    {
        match self.find_tab(tab_id) {
            Some(p) => {
                let alias = self.tabs[p].host_alias.as_str();
                let mut i: usize = 0;
                while i < self.hosts.len()
                    invariant
                        0 <= i <= self.hosts.len(),
                        p < self.tabs.len(),
                        tab_position(self.tabs@, tab_id) == Some(p as int),
                        alias@ == self.tabs@[p as int].host_alias@,
                        forall|j: int| 0 <= j < i ==> self.hosts@[j].alias@ != alias@,
                    decreases self.hosts.len() - i,
                {
                    if str_eq(self.hosts[i].alias.as_str(), alias) {
                        proof {
                            let hs = self.hosts@;
                            let c = choose|k: int| 0 <= k < hs.len() && hs[k].alias@ == alias@ && forall|j: int| 0 <= j < k ==> hs[j].alias@ != alias@;
                            assert(0 <= i < hs.len() && hs[i as int].alias@ == alias@ && forall|j: int| 0 <= j < i ==> hs[j].alias@ != alias@);
                            if c < i {
                                assert(hs[c].alias@ != alias@);
                            }
                            if c > i {
                                assert(hs[i as int].alias@ != alias@);
                            }
                        }
                        return Some(self.hosts[i].duplicate());
                    }
                    i = i + 1;
                }
                None
            },
            None => None,
        }
    }

    /// The position of the first host `id`.
    pub fn find_host(&self, id: u128) -> (r: Option<usize>)
        ensures
            match r {
                Some(i) => host_position(self.hosts@, id) == Some(i as int),
                None => host_position(self.hosts@, id) is None,
            },
    {
        host_index(&self.hosts, id)
    }

    /// Stores a host: it replaces the first host with its identifier, or is
    /// added at the end if there is none.
    pub fn save_host(&mut self, host: Host)
        ensures
            final(self).tabs == old(self).tabs,
            final(self).active_tab == old(self).active_tab,
            match host_position(old(self).hosts@, host.id) {
                Some(i) => final(self).hosts@ == old(self).hosts@.update(i, host),
                None => final(self).hosts@ == old(self).hosts@.push(host),
            },
    {
        match self.find_host(host.id) {
            Some(i) => {
                self.hosts.set(i, host);
            },
            None => {
                self.hosts.push(host);
            },
        }
    }

    /// Removes every host with the identifier `id`.
    pub fn delete_host(&mut self, id: u128)
        ensures
            final(self).tabs == old(self).tabs,
            final(self).active_tab == old(self).active_tab,
            final(self).hosts@ == old(self).hosts@.filter(other_host(id)),
    {
        let ghost pre = self.hosts@;
        let mut old_hosts: Vec<Host> = Vec::new();
        std::mem::swap(&mut old_hosts, &mut self.hosts);
        let mut kept: Vec<Host> = Vec::new();
        for h in it: old_hosts.into_iter()
            invariant
                it.seq() == pre,
                kept@ == pre.take(it.index() as int).filter(other_host(id)),
        {
            proof {
                let k = it.index() as int;
                assert(pre.take(k + 1) =~= pre.take(k).push(pre[k]));
                pre.take(k).lemma_filter_push(pre[k], other_host(id));
            }
            if h.id != id {
                kept.push(h);
            }
        }
        assert(pre.take(pre.len() as int) =~= pre);
        self.hosts = kept;
    }

    /// Adds a copy of `host` at the end, under a fresh identifier and with
    /// `-copy` added to its alias.
    pub fn duplicate_host(&mut self, host: &Host)
        ensures
            final(self).tabs == old(self).tabs,
            final(self).active_tab == old(self).active_tab,
            final(self).hosts@.len() == old(self).hosts@.len() + 1,
            final(self).hosts@.drop_last() == old(self).hosts@,
            final(self).hosts@.last()@.without_id() == copied(host@),
            final(self).hosts@.last()@.alias == host@.alias + "-copy"@,
            final(self).hosts@.last()@.hostname == host@.hostname,
            final(self).hosts@.last()@.user == host@.user,
            final(self).hosts@.last()@.port == host@.port,
            final(self).hosts@.last()@.identity_file == host@.identity_file,
            final(self).hosts@.last()@.tags == host@.tags,
            final(self).hosts@.last()@.description == host@.description,
    {
        let mut copy = host.duplicate();
        copy.id = new_id();
        push_str(&mut copy.alias, "-copy");
        let ghost pre = self.hosts@;
        self.hosts.push(copy);
        assert(self.hosts@.drop_last() =~= pre);
    }

    /// Ctrl+W: closes the tab in front, if there is one, and gives its sessions.
    pub fn close_active(&mut self) -> (closed: Vec<SessionId>)
        ensures
            final(self).hosts == old(self).hosts,
            old(self).tabs_ok() ==> final(self).tabs_ok(),
            match old(self).active_tab {
                Some(id) => match tab_position(old(self).tabs@, id) {
                    Some(p) => {
                        &&& final(self).tabs@ == old(self).tabs@.remove(p)
                        &&& final(self).active_tab == last_tab_id(final(self).tabs@)
                        &&& closed@ == old(self).tabs@[p].pane_tree.leaves()
                    },
                    None => {
                        &&& final(self).tabs@ == old(self).tabs@
                        &&& final(self).active_tab == old(self).active_tab
                        &&& closed@.len() == 0
                    },
                },
                None => {
                    &&& final(self).tabs@ == old(self).tabs@
                    &&& final(self).active_tab is None
                    &&& closed@.len() == 0
                },
            },
    {
        match self.active_tab {
            Some(id) => self.close_tab(id),
            None => Vec::new(),
        }
    }

    /// A session to `alias` has been started: opens a tab for it, titled with the
    /// alias, brings it to the front, and gives the status line to show.
    pub fn open_session_tab(&mut self, alias: &str, session_id: SessionId) -> (status: String)
        ensures
            final(self).hosts == old(self).hosts,
            final(self).tabs@.len() == old(self).tabs@.len() + 1,
            final(self).tabs@.drop_last() == old(self).tabs@,
            final(self).tabs@.last().title@ == alias@,
            final(self).tabs@.last().host_alias@ == alias@,
            final(self).tabs@.last().pane_tree == PaneTree::Terminal(session_id),
            final(self).tabs@.last().active_pane == session_id,
            final(self).active_tab == Some(final(self).tabs@.last().id),
            status@ == connecting_text(alias@),
            old(self).tabs_ok() ==> final(self).tabs_ok(),
    {
        let tab = Tab::new(alias, alias, session_id);
        proof {
            reveal_with_fuel(PaneTree::leaves, 2);
            assert(tab.pane_tree.leaves() =~= seq![session_id]);
            assert(tab.pane_tree.leaves()[0] == session_id);
        }
        let ghost pre = self.tabs@;
        self.open_tab(tab);
        assert(self.tabs@.drop_last() =~= pre);
        connecting_status(alias)
    }

    /// A click in a pane of the tab in front gives that pane the focus.
    pub fn focus_pane(&mut self, pane: SessionId)
        ensures
            old(self).tabs_ok() && match old(self).active_tab {
                Some(id) => match tab_position(old(self).tabs@, id) {
                    Some(p) => old(self).tabs@[p].pane_tree.leaves().contains(pane),
                    None => true,
                },
                None => true,
            } ==> final(self).tabs_ok(),
            final(self).hosts == old(self).hosts,
            final(self).active_tab == old(self).active_tab,
            final(self).tabs@.len() == old(self).tabs@.len(),
            match old(self).active_tab {
                Some(id) => match tab_position(old(self).tabs@, id) {
                    Some(p) => {
                        &&& final(self).tabs@[p].active_pane == pane
                        &&& final(self).tabs@[p].id == old(self).tabs@[p].id
                        &&& final(self).tabs@[p].title == old(self).tabs@[p].title
                        &&& final(self).tabs@[p].pane_tree == old(self).tabs@[p].pane_tree
                        &&& final(self).tabs@[p].host_alias == old(self).tabs@[p].host_alias
                        &&& forall|j: int| 0 <= j < old(self).tabs@.len() && j != p ==> final(self).tabs@[j] == old(self).tabs@[j]
                    },
                    None => final(self).tabs@ == old(self).tabs@,
                },
                None => final(self).tabs@ == old(self).tabs@,
            },
    {
        if let Some(id) = self.active_tab {
            if let Some(p) = self.find_tab(id) {
                let ghost pre = self.tabs@;
                let mut tabs: Vec<Tab> = Vec::new();
                std::mem::swap(&mut tabs, &mut self.tabs);
                let mut tab = tabs.remove(p);
                tab.active_pane = pane;
                tabs.insert(p, tab);
                self.tabs = tabs;
                proof {
                    let t = self.tabs@;
                    if tabs_consistent(pre, old(self).active_tab) && pre[p as int].pane_tree.leaves().contains(pane) {
                        assert forall|i: int| 0 <= i < t.len() implies (#[trigger] t[i]).pane_tree.leaves().contains(
                            t[i].active_pane,
                        ) by {
                            if i != p {
                                assert(t[i] == pre[i]);
                            }
                        }
                        let a = choose|i: int| 0 <= i < pre.len() && #[trigger] pre[i].id == id;
                        assert(t[a].id == id);
                    }
                }
            }
        }
    }

    /// Carries out what the tab bar asks for, as far as the workspace is
    /// concerned, and gives what is left for the program to do.
    pub fn apply_tab_action(&mut self, action: &TabBarAction) -> (e: Effect)
        ensures
            final(self).hosts == old(self).hosts,
            old(self).tabs_ok() && (action matches TabBarAction::Activate(id) ==> exists|i: int|
                0 <= i < old(self).tabs@.len() && #[trigger] old(self).tabs@[i].id == id) ==> final(self).tabs_ok(),
            match *action {
                TabBarAction::Activate(id) => {
                    &&& final(self).tabs@ == old(self).tabs@
                    &&& final(self).active_tab == Some(id)
                    &&& e is Nothing
                },
                TabBarAction::Close(id) => match tab_position(old(self).tabs@, id) {
                    Some(p) => {
                        &&& final(self).tabs@ == old(self).tabs@.remove(p)
                        &&& final(self).active_tab == last_tab_id(final(self).tabs@)
                        &&& e matches Effect::Disconnect(v) && v@ == old(self).tabs@[p].pane_tree.leaves()
                    },
                    None => {
                        &&& final(self).tabs@ == old(self).tabs@
                        &&& final(self).active_tab == old(self).active_tab
                        &&& e matches Effect::Disconnect(v) && v@.len() == 0
                    },
                },
                TabBarAction::New => {
                    &&& final(self).tabs@ == old(self).tabs@
                    &&& final(self).active_tab == old(self).active_tab
                    &&& e is OpenConnectDialog
                },
                TabBarAction::Duplicate(id) => {
                    &&& final(self).tabs@ == old(self).tabs@
                    &&& final(self).active_tab == old(self).active_tab
                    &&& match tab_position(old(self).tabs@, id) {
                        Some(p) => match alias_position(old(self).hosts@, old(self).tabs@[p].host_alias@) {
                            Some(i) => e matches Effect::Connect(h) && h@ == old(self).hosts@[i]@,
                            None => e is Nothing,
                        },
                        None => e is Nothing,
                    }
                },
                TabBarAction::OpenSettings => {
                    &&& final(self).tabs@ == old(self).tabs@
                    &&& final(self).active_tab == old(self).active_tab
                    &&& e is OpenSettings
                },
                TabBarAction::SplitH(id) => {
                    &&& final(self).tabs@ == old(self).tabs@
                    &&& final(self).active_tab == old(self).active_tab
                    &&& split_effect(old(self).tabs@, old(self).hosts@, id, false, e)
                },
                TabBarAction::SplitV(id) => {
                    &&& final(self).tabs@ == old(self).tabs@
                    &&& final(self).active_tab == old(self).active_tab
                    &&& split_effect(old(self).tabs@, old(self).hosts@, id, true, e)
                },
            },
    {
        match action {
            TabBarAction::Activate(id) => {
                self.active_tab = Some(*id);
                Effect::Nothing
            },
            TabBarAction::Close(id) => Effect::Disconnect(self.close_tab(*id)),
            TabBarAction::New => Effect::OpenConnectDialog,
            TabBarAction::Duplicate(id) => match self.host_for_tab(*id) {
                Some(h) => Effect::Connect(h),
                None => Effect::Nothing,
            },
            TabBarAction::OpenSettings => Effect::OpenSettings,
            TabBarAction::SplitH(id) => match self.host_for_tab(*id) {
                Some(h) => Effect::ConnectSplit { host: h, tab: *id, vertical: false },
                None => Effect::Nothing,
            },
            TabBarAction::SplitV(id) => match self.host_for_tab(*id) {
                Some(h) => Effect::ConnectSplit { host: h, tab: *id, vertical: true },
                None => Effect::Nothing,
            },
        }
    }

    /// A session for a split of tab `tab_id` has been started: the tab's
    /// focused pane is split (side by side, or one above the other when
    /// `vertical`), the new session's pane taking the focus. An unknown tab
    /// changes nothing.
    pub fn split_tab(&mut self, tab_id: u128, new_session: SessionId, vertical: bool)
        ensures
            final(self).hosts == old(self).hosts,
            final(self).active_tab == old(self).active_tab,
            final(self).tabs@.len() == old(self).tabs@.len(),
            match tab_position(old(self).tabs@, tab_id) {
                Some(p) => {
                    let t = old(self).tabs@[p];
                    &&& final(self).tabs@[p].pane_tree == if vertical {
                        t.pane_tree.replace_leaf(t.active_pane, PaneTree::v_pair(t.active_pane, new_session))
                    } else {
                        t.pane_tree.replace_leaf(t.active_pane, PaneTree::h_pair(t.active_pane, new_session))
                    }
                    &&& final(self).tabs@[p].active_pane == new_session
                    &&& final(self).tabs@[p].id == t.id
                    &&& final(self).tabs@[p].title == t.title
                    &&& final(self).tabs@[p].host_alias == t.host_alias
                    &&& forall|j: int| 0 <= j < old(self).tabs@.len() && j != p ==> final(self).tabs@[j] == old(self).tabs@[j]
                },
                None => final(self).tabs@ == old(self).tabs@,
            },
            old(self).tabs_ok() ==> final(self).tabs_ok(),
    {
        if let Some(p) = self.find_tab(tab_id) {
            let ghost pre = self.tabs@;
            let mut tabs: Vec<Tab> = Vec::new();
            std::mem::swap(&mut tabs, &mut self.tabs);
            let mut tab = tabs.remove(p);
            let target = tab.active_pane;
            let mut tree = PaneTree::Terminal(target);
            std::mem::swap(&mut tree, &mut tab.pane_tree);
            proof {
                if vertical {
                    law_split_v_sessions(tree, target, new_session);
                } else {
                    law_split_h_sessions(tree, target, new_session);
                }
                if tabs_consistent(pre, old(self).active_tab) {
                    assert(pre[p as int].pane_tree.leaves().contains(target));
                    lemma_expand_shows_new(tree.leaves(), target, new_session);
                }
            }
            tab.pane_tree = if vertical {
                tree.split_v_at(target, new_session)
            } else {
                tree.split_h_at(target, new_session)
            };
            tab.active_pane = new_session;
            tabs.insert(p, tab);
            self.tabs = tabs;
            proof {
                let t = self.tabs@;
                assert forall|j: int| 0 <= j < pre.len() && j != p implies t[j] == pre[j] by {}
                if tabs_consistent(pre, old(self).active_tab) {
                    assert forall|i: int| 0 <= i < t.len() implies (#[trigger] t[i]).pane_tree.leaves().contains(
                        t[i].active_pane,
                    ) by {
                        if i != p {
                            assert(t[i] == pre[i]);
                        }
                    }
                    if let Some(a) = old(self).active_tab {
                        let k = choose|i: int| 0 <= i < pre.len() && #[trigger] pre[i].id == a;
                        assert(t[k].id == a);
                    }
                }
            }
        }
    }

    /// Ctrl+Tab and Ctrl+Shift+Tab: brings the next tab (or the previous one)
    /// to the front, going round; without a tab in front, the first (or the
    /// last). Without tabs nothing changes.
    pub fn cycle_tab(&mut self, forward: bool)
        ensures
            final(self).hosts == old(self).hosts,
            final(self).tabs == old(self).tabs,
            final(self).active_tab == cycled(old(self).tabs@, old(self).active_tab, forward),
            old(self).tabs_ok() ==> final(self).tabs_ok(),
    {
        let n = self.tabs.len();
        if n == 0 {
            return;
        }
        let pos = match self.active_tab {
            Some(id) => self.find_tab(id),
            None => None,
        };
        let next = match pos {
            Some(p) => if forward {
                if p + 1 < n { p + 1 } else { 0 }
            } else {
                if p > 0 { p - 1 } else { n - 1 }
            },
            None => if forward { 0 } else { n - 1 },
        };
        self.active_tab = Some(self.tabs[next].id);
    }

    /// Carries out what the vault panel asks for, as far as the workspace is
    /// concerned, and gives what is left for the program to do: a saved or
    /// deleted host is written to disk, a duplicated one is not.
    pub fn apply_vault_action(&mut self, action: VaultAction) -> (e: Effect)
        ensures
            final(self).tabs == old(self).tabs,
            final(self).active_tab == old(self).active_tab,
            match action {
                VaultAction::Connect(h) => final(self).hosts == old(self).hosts && e == Effect::Connect(h),
                VaultAction::Edit(h) => final(self).hosts == old(self).hosts && e == Effect::EditHost(h),
                VaultAction::Save(h) => {
                    &&& e is PersistHosts
                    &&& match host_position(old(self).hosts@, h.id) {
                        Some(i) => final(self).hosts@ == old(self).hosts@.update(i, h),
                        None => final(self).hosts@ == old(self).hosts@.push(h),
                    }
                },
                VaultAction::Delete(id) => {
                    &&& e is PersistHosts
                    &&& final(self).hosts@ == old(self).hosts@.filter(other_host(id))
                },
                VaultAction::Duplicate(h) => {
                    &&& e is Nothing
                    &&& final(self).hosts@.len() == old(self).hosts@.len() + 1
                    &&& final(self).hosts@.drop_last() == old(self).hosts@
                    &&& final(self).hosts@.last()@.without_id() == copied(h@)
                    &&& final(self).hosts@.last()@.alias == h@.alias + "-copy"@
                    &&& final(self).hosts@.last()@.hostname == h@.hostname
                    &&& final(self).hosts@.last()@.user == h@.user
                    &&& final(self).hosts@.last()@.port == h@.port
                    &&& final(self).hosts@.last()@.identity_file == h@.identity_file
                    &&& final(self).hosts@.last()@.tags == h@.tags
                    &&& final(self).hosts@.last()@.description == h@.description
                },
                _ => final(self).hosts == old(self).hosts && e is Nothing,
            },
    {
        match action {
            VaultAction::Connect(h) => Effect::Connect(h),
            VaultAction::Edit(h) => Effect::EditHost(h),
            VaultAction::Save(h) => {
                self.save_host(h);
                Effect::PersistHosts
            },
            VaultAction::Delete(id) => {
                self.delete_host(id);
                Effect::PersistHosts
            },
            VaultAction::Duplicate(h) => {
                self.duplicate_host(&h);
                Effect::Nothing
            },
            _ => Effect::Nothing,
        }
    }
}

/// After a host is saved, looking up its identifier finds it, at the place of
/// the host it replaced or at the end.
pub proof fn law_save_then_find(hosts: Seq<Host>, h: Host)
    ensures
        ({
            let out = match host_position(hosts, h.id) {
                Some(i) => hosts.update(i, h),
                None => hosts.push(h),
            };
            &&& host_position(out, h.id) is Some
            &&& out[host_position(out, h.id)->0] == h
        }),
{
    match host_position(hosts, h.id) {
        Some(i) => {
            let out = hosts.update(i, h);
            assert(0 <= i < hosts.len() && hosts[i].id == h.id && forall|j: int| 0 <= j < i ==> hosts[j].id != h.id);
            assert(0 <= i < out.len() && out[i].id == h.id && forall|j: int| 0 <= j < i ==> out[j].id != h.id);
            let c = choose|k: int| 0 <= k < out.len() && out[k].id == h.id && forall|j: int| 0 <= j < k ==> out[j].id != h.id;
            if c > i {
                assert(out[i].id == h.id);
            }
            if c < i {
                assert(out[c] == hosts[c]);
            }
        },
        None => {
            let out = hosts.push(h);
            let n = hosts.len() as int;
            assert forall|j: int| 0 <= j < n implies out[j].id != h.id by {
                assert(out[j] == hosts[j]);
                if hosts[j].id == h.id {
                    lemma_first_host(hosts, h.id, j);
                }
            }
            assert(0 <= n < out.len() && out[n].id == h.id && forall|j: int| 0 <= j < n ==> out[j].id != h.id);
            let c = choose|k: int| 0 <= k < out.len() && out[k].id == h.id && forall|j: int| 0 <= j < k ==> out[j].id != h.id;
            if c < n {
                assert(out[c].id != h.id);
            }
        },
    }
}

/// A host with the identifier `id` at `j` means there is a first one.
proof fn lemma_first_host(hosts: Seq<Host>, id: u128, j: int)
    requires
        0 <= j < hosts.len(),
        hosts[j].id == id,
    ensures
        host_position(hosts, id) is Some,
    decreases j,
{
    if forall|m: int| 0 <= m < j ==> hosts[m].id != id {
        assert(0 <= j < hosts.len() && hosts[j].id == id && forall|m: int| 0 <= m < j ==> hosts[m].id != id);
    } else {
        let m = choose|m: int| 0 <= m < j && hosts[m].id == id;
        lemma_first_host(hosts, id, m);
    }
}

/// After a host is deleted, no host with its identifier is left.
pub proof fn law_delete_then_absent(hosts: Seq<Host>, id: u128)
    ensures
        host_position(hosts.filter(other_host(id)), id) is None,
{
    let out = hosts.filter(other_host(id));
    assert forall|i: int| !(0 <= i < out.len() && out[i].id == id && forall|j: int| 0 <= j < i ==> out[j].id != id) by {
        if 0 <= i < out.len() {
            hosts.lemma_filter_pred(other_host(id), i);
        }
    }
}


/// The vault search ignores case: two ASCII search texts that differ only in
/// the case of their letters list the same hosts.
pub proof fn law_search_ignores_case(hosts: Seq<Host>, q1: Seq<char>, q2: Seq<char>)
    requires
        all_ascii(q1),
        all_ascii(q2),
        ascii_lowercase(q1) == ascii_lowercase(q2),
    ensures
        matching_ids(hosts, lowercase(q1)) == matching_ids(hosts, lowercase(q2)),
{
}


/// A copy keeps everything of the host but its identifier, and adds `-copy`
/// to the alias: the same address, user, port, key file, tags and description.
pub proof fn law_copy_keeps_fields(h: HostView)
    ensures
        copied(h).id == 0,
        copied(h).alias == h.alias + "-copy"@,
        copied(h).hostname == h.hostname,
        copied(h).user == h.user,
        copied(h).port == h.port,
        copied(h).identity_file == h.identity_file,
        copied(h).tags == h.tags,
        copied(h).description == h.description,
{
}

/// A host that is listed for `q` has its identifier in the list.
proof fn lemma_listed_host_in_ids(hs: Seq<Host>, q: Seq<char>, i: int)
    requires
        0 <= i < hs.len(),
        host_matches(hs[i]@, q),
    ensures
        matching_ids(hs, q).contains(hs[i].id),
    decreases hs.len(),
{
    let pre = matching_ids(hs.drop_last(), q);
    if i == hs.len() - 1 {
        assert(matching_ids(hs, q)[pre.len() as int] == hs[i].id);
    } else {
        assert(hs.drop_last()[i] == hs[i]);
        lemma_listed_host_in_ids(hs.drop_last(), q, i);
        let j = choose|j: int| 0 <= j < pre.len() && pre[j] == hs[i].id;
        assert(matching_ids(hs, q)[j] == hs[i].id);
    }
}

/// The search looks in the lowercased fields: a host whose lowercased alias,
/// address or one of whose lowercased tags contains the lowercased search text
/// is listed (so `DB01.corp.lan` is found by `db01`), and with an empty search
/// text every host is listed.
pub proof fn law_search_lists_host_whose_field_contains(hs: Seq<Host>, q: Seq<char>, i: int)
    requires
        0 <= i < hs.len(),
    ensures
        lowercase(q).len() == 0 ==> matching_ids(hs, lowercase(q)).contains(hs[i].id),
        occurs_in(lowercase(q), lowercase(hs[i]@.alias))
            ==> matching_ids(hs, lowercase(q)).contains(hs[i].id),
        occurs_in(lowercase(q), lowercase(hs[i]@.hostname))
            ==> matching_ids(hs, lowercase(q)).contains(hs[i].id),
        forall|k: int|
            0 <= k < hs[i]@.tags.len() && occurs_in(lowercase(q), lowercase(#[trigger] hs[i]@.tags[k]))
            ==> matching_ids(hs, lowercase(q)).contains(hs[i].id),
{
    if host_matches(hs[i]@, lowercase(q)) {
        lemma_listed_host_in_ids(hs, lowercase(q), i);
    }
}

/// `a` and `b` are ASCII texts that differ at most in the case of their letters.
pub open spec fn same_ignoring_case(a: Seq<char>, b: Seq<char>) -> bool {
    &&& all_ascii(a)
    &&& all_ascii(b)
    &&& ascii_lowercase(a) == ascii_lowercase(b)
}

/// `b` is `a` with the case of letters changed in the fields the vault searches.
pub open spec fn case_variant(a: HostView, b: HostView) -> bool {
    &&& same_ignoring_case(a.alias, b.alias)
    &&& same_ignoring_case(a.hostname, b.hostname)
    &&& a.tags.len() == b.tags.len()
    &&& forall|k: int| 0 <= k < a.tags.len() ==> same_ignoring_case(#[trigger] a.tags[k], b.tags[k])
}

proof fn lemma_case_variant_matches(a: HostView, b: HostView, q: Seq<char>)
    requires
        case_variant(a, b),
    ensures
        host_matches(a, q) == host_matches(b, q),
{
    assert(lowercase(a.alias) == lowercase(b.alias));
    assert(lowercase(a.hostname) == lowercase(b.hostname));
    assert forall|k: int| 0 <= k < a.tags.len() implies lowercase(#[trigger] a.tags[k]) == lowercase(b.tags[k]) by {
        assert(same_ignoring_case(a.tags[k], b.tags[k]));
    }
    if exists|k: int| 0 <= k < a.tags.len() && occurs_in(q, lowercase(#[trigger] a.tags[k])) {
        let k = choose|k: int| 0 <= k < a.tags.len() && occurs_in(q, lowercase(#[trigger] a.tags[k]));
        assert(occurs_in(q, lowercase(b.tags[k])));
    }
    if exists|k: int| 0 <= k < b.tags.len() && occurs_in(q, lowercase(#[trigger] b.tags[k])) {
        let k = choose|k: int| 0 <= k < b.tags.len() && occurs_in(q, lowercase(#[trigger] b.tags[k]));
        assert(lowercase(a.tags[k]) == lowercase(b.tags[k]));
        assert(occurs_in(q, lowercase(a.tags[k])));
    }
}

/// The search ignores the case of the hosts' fields: changing the case of the
/// letters of the (ASCII) alias, address or tags of the hosts changes no
/// host's place in the list, whatever the search text.
pub proof fn law_search_ignores_field_case(hs1: Seq<Host>, hs2: Seq<Host>, q: Seq<char>)
    requires
        hs1.len() == hs2.len(),
        forall|i: int| 0 <= i < hs1.len() ==> (#[trigger] hs1[i]).id == hs2[i].id,
        forall|i: int| 0 <= i < hs1.len() ==> case_variant(#[trigger] hs1[i]@, hs2[i]@),
    ensures
        matching_ids(hs1, lowercase(q)) == matching_ids(hs2, lowercase(q)),
    decreases hs1.len(),
{
    if hs1.len() > 0 {
        let n = hs1.len() - 1;
        assert(hs1.last() == hs1[n]);
        assert(hs2.last() == hs2[n]);
        assert(case_variant(hs1[n]@, hs2[n]@));
        lemma_case_variant_matches(hs1.last()@, hs2.last()@, lowercase(q));
        let d1 = hs1.drop_last();
        let d2 = hs2.drop_last();
        assert forall|i: int| 0 <= i < d1.len() implies (#[trigger] d1[i]).id == d2[i].id && case_variant(d1[i]@, d2[i]@) by {
            assert(d1[i] == hs1[i]);
            assert(d2[i] == hs2[i]);
            assert(case_variant(hs1[i]@, hs2[i]@));
        }
        law_search_ignores_field_case(d1, d2, q);
    }
}

} // verus!
