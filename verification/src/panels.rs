use vstd::prelude::*;
use crate::host::Host;
use crate::text::{lowercase, push_str};
use crate::workspace::{host_index, host_position, matching_hosts, matching_ids, TabBarAction, VaultAction};

verus! {

/// The decisions of the tab bar: which click or menu entry asks for what.
pub struct TabBar;

/// The last of the requests that are there, if any.
pub open spec fn last_request<T>(rs: Seq<Option<T>>) -> Option<T>
    decreases rs.len(),
{
    if rs.len() == 0 {
        None
    } else {
        match rs.last() {
            Some(a) => Some(a),
            None => last_request(rs.drop_last()),
        }
    }
}

/// An entry of a tab's context menu.
#[derive(Debug, Clone, Copy, PartialEq, Eq, Structural)]
pub enum TabMenuEntry {
    Duplicate,
    SplitH,
    SplitV,
    Close,
}

/// What an entry of the context menu of tab `tab_id` asks for.
pub open spec fn menu_request(tab_id: u128, entry: TabMenuEntry) -> TabBarAction {
    match entry {
        TabMenuEntry::Duplicate => TabBarAction::Duplicate(tab_id),
        TabMenuEntry::SplitH => TabBarAction::SplitH(tab_id),
        TabMenuEntry::SplitV => TabBarAction::SplitV(tab_id),
        TabMenuEntry::Close => TabBarAction::Close(tab_id),
    }
}

impl TabBar {
    /// What an entry of the context menu of tab `tab_id` asks for: duplicating,
    /// splitting or closing that tab.
    pub fn menu_action(tab_id: u128, entry: TabMenuEntry) -> (r: TabBarAction)
        ensures
            r == menu_request(tab_id, entry),
    {
        match entry {
            TabMenuEntry::Duplicate => TabBarAction::Duplicate(tab_id),
            TabMenuEntry::SplitH => TabBarAction::SplitH(tab_id),
            TabMenuEntry::SplitV => TabBarAction::SplitV(tab_id),
            TabMenuEntry::Close => TabBarAction::Close(tab_id),
        }
    }

    /// What happens to tab `tab_id`: a click on its close button closes it, a
    /// click elsewhere brings it to the front; without a click, what the entry
    /// of its context menu that was chosen, if any, asks of that tab.
    pub fn tab_action(tab_id: u128, menu: Option<TabMenuEntry>, clicked: bool, close_hovered: bool) -> (r:
        Option<TabBarAction>)
        ensures
            clicked && close_hovered ==> r == Some(TabBarAction::Close(tab_id)),
            clicked && !close_hovered ==> r == Some(TabBarAction::Activate(tab_id)),
            !clicked ==> r == match menu {
                Some(entry) => Some(menu_request(tab_id, entry)),
                None => None,
            },
    {
        if clicked {
            if close_hovered {
                Some(TabBarAction::Close(tab_id))
            } else {
                Some(TabBarAction::Activate(tab_id))
            }
        } else {
            match menu {
                Some(entry) => Some(TabBar::menu_action(tab_id, entry)),
                None => None,
            }
        }
    }

    /// Whether a tab shows its close button: when it is in front or under the pointer.
    pub fn shows_close(is_active: bool, hovered: bool) -> (b: bool)
        ensures
            b == (is_active || hovered),
    {
        is_active || hovered
    }

    /// What the whole bar asks for in one frame: the settings button wins over
    /// the new-tab button, which wins over the last tab that asked for something.
    pub fn bar_action(tab_actions: Vec<Option<TabBarAction>>, new_clicked: bool, settings_clicked: bool) -> (r:
        Option<TabBarAction>)
        ensures
            settings_clicked ==> r == Some(TabBarAction::OpenSettings),
            !settings_clicked && new_clicked ==> r == Some(TabBarAction::New),
            !settings_clicked && !new_clicked ==> r == last_request(tab_actions@),
    {
        if settings_clicked {
            return Some(TabBarAction::OpenSettings);
        }
        if new_clicked {
            return Some(TabBarAction::New);
        }
        let ghost all = tab_actions@;
        let mut rest = tab_actions;
        while rest.len() > 0
            invariant
                !settings_clicked,
                !new_clicked,
                all == tab_actions@,
                last_request(rest@) == last_request(all),
            decreases rest.len(),
        {
            let ghost before = rest@;
            match rest.pop() {
                Some(Some(a)) => {
                    return Some(a);
                },
                _ => {
                    assert(rest@ =~= before.drop_last());
                },
            }
        }
        None
    }
}

/// What a host of the vault list asks for.
#[derive(Debug, Clone, Copy, PartialEq, Eq, Structural)]
pub enum HostRowAction {
    Select,
    Connect,
    Edit,
    Duplicate,
    Delete,
}

/// The vault's side panel: its search text, the selected host and the host
/// under the pointer.
pub struct VaultPanel {
    pub search: String,
    pub selected: Option<u128>,
    pub hovered_host: Option<u128>,
}

/// `#` and the tag.
pub open spec fn tag_label(tag: Seq<char>) -> Seq<char> {
    "#"@ + tag
}

impl VaultPanel {
    /// An empty search and nothing selected.
    pub fn new() -> (p: VaultPanel)
        ensures
            p.search@.len() == 0,
            p.selected is None,
            p.hovered_host is None,
    {
        VaultPanel { search: String::new(), selected: None, hovered_host: None }
    }

    /// The identifiers of the hosts listed for the panel's search text, in order.
    pub fn listed(&self, hosts: &Vec<Host>) -> (ids: Vec<u128>)
        ensures
            ids@ == matching_ids(hosts@, lowercase(self.search@)),
    {
        matching_hosts(hosts, self.search.as_str())
    }

    /// What a host row asks for: a double click connects, a single click
    /// selects; otherwise the entry of its context menu that was chosen, if any.
    pub fn row_action(menu: Option<HostRowAction>, clicked: bool, double_clicked: bool) -> (r: Option<
        HostRowAction,
    >)
        ensures
            double_clicked ==> r == Some(HostRowAction::Connect),
            !double_clicked && clicked ==> r == Some(HostRowAction::Select),
            !double_clicked && !clicked ==> r == menu,
    {
        if double_clicked {
            Some(HostRowAction::Connect)
        } else if clicked {
            Some(HostRowAction::Select)
        } else {
            menu
        }
    }

    /// Takes what the row of host `host_id` asked for: a selection is kept in the
    /// panel; connecting, editing or duplicating asks it of the vault for a copy
    /// of the first host with that identifier, if there still is one; removing
    /// asks for the identifier to go.
    pub fn take_row_action(&mut self, hosts: &Vec<Host>, host_id: u128, a: HostRowAction) -> (r: Option<
        VaultAction,
    >)
        ensures
            final(self).search == old(self).search,
            final(self).hovered_host == old(self).hovered_host,
            a == HostRowAction::Select ==> final(self).selected == Some(host_id) && r is None,
            a != HostRowAction::Select ==> final(self).selected == old(self).selected,
            a == HostRowAction::Delete ==> r == Some(VaultAction::Delete(host_id)),
            a == HostRowAction::Connect || a == HostRowAction::Edit || a == HostRowAction::Duplicate ==> match host_position(
                hosts@,
                host_id,
            ) {
                Some(i) => match r {
                    Some(VaultAction::Connect(h)) => a == HostRowAction::Connect && h@ == hosts@[i]@,
                    Some(VaultAction::Edit(h)) => a == HostRowAction::Edit && h@ == hosts@[i]@,
                    Some(VaultAction::Duplicate(h)) => a == HostRowAction::Duplicate && h@ == hosts@[i]@,
                    _ => false,
                },
                None => r is None,
            },
    {
        match a {
            HostRowAction::Select => {
                self.selected = Some(host_id);
                None
            },
            HostRowAction::Delete => Some(VaultAction::Delete(host_id)),
            _ => match host_index(hosts, host_id) {
                Some(i) => {
                    let h = hosts[i].duplicate();
                    match a {
                        HostRowAction::Connect => Some(VaultAction::Connect(h)),
                        HostRowAction::Edit => Some(VaultAction::Edit(h)),
                        _ => Some(VaultAction::Duplicate(h)),
                    }
                },
                None => None,
            },
        }
    }

    /// The tag labels a host row shows: `#` and the tag, for its first two tags.
    pub fn row_tags(tags: &Vec<String>) -> (labels: Vec<String>)
        ensures
            labels@.len() == if tags@.len() < 2 { tags@.len() } else { 2 },
            forall|i: int| 0 <= i < labels@.len() ==> #[trigger] labels@[i]@ == tag_label(tags@[i]@),
    {
        let n: usize = if tags.len() < 2 { tags.len() } else { 2 };
        let mut labels: Vec<String> = Vec::new();
        let mut i: usize = 0;
        while i < n
            invariant
                n <= tags.len(),
                n == if tags@.len() < 2 { tags@.len() } else { 2 },
                0 <= i <= n,
                labels@.len() == i,
                forall|j: int| 0 <= j < i ==> #[trigger] labels@[j]@ == tag_label(tags@[j]@),
            decreases n - i,
        {
            let mut l = String::from_str("#");
            push_str(&mut l, tags[i].as_str());
            labels.push(l);
            i = i + 1;
        }
        labels
    }
}

} // verus!
