use vstd::prelude::*;
use crate::host::Host;

verus! {

/// What a plugin is told of a host.
#[derive(Debug, Clone)]
pub struct HostInfo {
    pub alias: String,
    pub hostname: String,
    pub user: String,
    pub port: u16,
}

impl<'a> From<&'a Host> for HostInfo {
    /// The plugin's view of a vault host: its alias, address, user and port.
    fn from(h: &'a Host) -> (i: HostInfo) {
        HostInfo { alias: h.alias.clone(), hostname: h.hostname.clone(), user: h.user.clone(), port: h.port }
    }
}

impl<'a> vstd::std_specs::convert::FromSpecImpl<&'a Host> for HostInfo {
    open spec fn obeys_from_spec() -> bool {
        true
    }

    open spec fn from_spec(h: &'a Host) -> HostInfo {
        HostInfo { alias: h.alias, hostname: h.hostname, user: h.user, port: h.port }
    }
}

/// What happens that plugins are told of.
#[derive(Debug, Clone)]
pub enum PluginEvent {
    OnConnect { host: HostInfo },
    OnDisconnect { host: HostInfo },
    OnOutput { session_id: String, data: Vec<u8> },
    OnCommand { command: String },
}

/// An extension of the program.
pub trait Plugin: Send + Sync {
    /// The events the plugin has been told, in the order it was told them.
    spec fn events(&self) -> Seq<PluginEvent>;

    fn name(&self) -> &str;

    fn version(&self) -> &str;

    /// Tells the plugin of an event; the plugin then counts it among those it
    /// has been told.
    fn on_event(&mut self, event: &PluginEvent)
        ensures
            final(self).events() == old(self).events().push(*event),
    ;
}

/// The loaded plugins.
pub struct PluginManager {
    plugins: Vec<Box<dyn Plugin>>,
    /// The calls made to the plugins so far, in the order they were made:
    /// the position of the plugin told, and the event.
    calls: Ghost<Seq<(int, PluginEvent)>>,
}

/// The calls one dispatch of `event` makes to `n` plugins: each plugin once,
/// in loading order.
pub open spec fn dispatch_calls(n: nat, event: PluginEvent) -> Seq<(int, PluginEvent)> {
    Seq::new(n, |i: int| (i, event))
}

impl PluginManager {
    /// How many plugins are loaded.
    pub closed spec fn count(&self) -> nat {
        self.plugins@.len()
    }

    /// For each loaded plugin, in loading order, the events it has been told.
    pub closed spec fn told(&self) -> Seq<Seq<PluginEvent>> {
        self.plugins@.map_values(|p: Box<dyn Plugin>| p.events())
    }

    /// The calls made to the plugins so far, in order: the position of the
    /// plugin told, and the event.
    pub closed spec fn calls(&self) -> Seq<(int, PluginEvent)> {
        self.calls@
    }

    /// No plugins, and no calls made.
    pub fn new() -> (m: PluginManager)
        ensures
            m.count() == 0,
            m.calls() == Seq::<(int, PluginEvent)>::empty(),
    {
        PluginManager { plugins: Vec::new(), calls: Ghost(Seq::empty()) }
    }

    /// Loads the plugins of a directory. Plugin files are not read yet, so the
    /// loaded plugins stay as they are, whether or not the directory exists.
    pub fn load_from_dir(&mut self, dir: &str)
        ensures
            final(self).count() == old(self).count(),
            final(self).told() == old(self).told(),
            final(self).calls() == old(self).calls(),
    {
    }

    /// Tells every loaded plugin of an event, once each, in loading order.
    pub fn dispatch(&mut self, event: &PluginEvent)
        ensures
            final(self).count() == old(self).count(),
            final(self).told() == old(self).told().map_values(|es: Seq<PluginEvent>| es.push(*event)),
            final(self).calls() == old(self).calls() + dispatch_calls(old(self).count(), *event),
    {
        let ghost before = self.told();
        let ghost calls0 = self.calls@;
        let n = self.plugins.len();
        let mut i: usize = 0;
        while i < n
            invariant
                n == self.plugins.len(),
                0 <= i <= n,
                before.len() == n,
                forall|j: int| 0 <= j < i ==> #[trigger] self.told()[j] == before[j].push(*event),
                forall|j: int| i <= j < n ==> #[trigger] self.told()[j] == before[j],
                self.calls@ == calls0 + dispatch_calls(i as nat, *event),
            decreases n - i,
        {
            let ghost pre = self.plugins@;
            let ghost pre_told = self.told();
            self.plugins[i].on_event(event);
            self.calls = Ghost(self.calls@.push((i as int, *event)));
            proof {
                assert(calls0 + dispatch_calls(i as nat, *event).push((i as int, *event)) =~= calls0
                    + dispatch_calls((i + 1) as nat, *event));
                assert(self.plugins@[i as int].events() == pre[i as int].events().push(*event));
                assert forall|j: int| 0 <= j < n implies #[trigger] self.told()[j] == if j == i {
                    pre_told[j].push(*event)
                } else {
                    pre_told[j]
                } by {
                    assert(self.told()[j] == self.plugins@[j].events());
                    assert(pre_told[j] == pre[j].events());
                    if j != i {
                        assert(self.plugins@[j] == pre[j]);
                    }
                }
                assert(pre_told[i as int] == before[i as int]);
            }
            i = i + 1;
        }
        assert(self.told() =~= before.map_values(|es: Seq<PluginEvent>| es.push(*event)));
        assert(calls0 + dispatch_calls(n as nat, *event) =~= calls0 + dispatch_calls(old(self).count(), *event));
    }

    /// How many plugins are loaded.
    pub fn plugin_count(&self) -> (n: usize)
        ensures
            n == self.count(),
    {
        self.plugins.len()
    }
}


/// A manager without plugins keeps none, whatever it is told: when what each
/// plugin was told after a dispatch is what it was told before and the event
/// (as `dispatch` ensures), a manager that had no plugins still has none. So a
/// new manager counts no plugin through any number of dispatches.
pub proof fn law_dispatch_keeps_no_plugins(before: PluginManager, after: PluginManager, e: PluginEvent)
    requires
        before.count() == 0,
        after.told() == before.told().map_values(|es: Seq<PluginEvent>| es.push(e)),
    ensures
        after.count() == 0,
{
    assert(after.told().len() == after.plugins@.len());
    assert(before.told().len() == before.plugins@.len());
}

impl Default for PluginManager {
    /// No plugins.
    fn default() -> (m: PluginManager)
        ensures
            m.count() == 0,
    {
        PluginManager::new()
    }
}

} // verus!
