use vstd::prelude::*;
use crate::id::new_id;
use crate::text::{decimal, push_decimal, push_str};

verus! {

/// A saved SSH host of the vault.
#[derive(Debug, Clone, PartialEq, Eq)]
pub struct Host {
    pub id: u128,
    pub alias: String,
    pub hostname: String,
    pub user: String,
    pub port: u16,
    pub identity_file: Option<String>,
    pub tags: Vec<String>,
    pub description: Option<String>,
}

/// The contents of a [`Host`], strings taken as their characters.
pub struct HostView {
    pub id: u128,
    pub alias: Seq<char>,
    pub hostname: Seq<char>,
    pub user: Seq<char>,
    pub port: u16,
    pub identity_file: Option<Seq<char>>,
    pub tags: Seq<Seq<char>>,
    pub description: Option<Seq<char>>,
}

impl View for Host {
    type V = HostView;

    open spec fn view(&self) -> HostView {
        HostView {
            id: self.id,
            alias: self.alias@,
            hostname: self.hostname@,
            user: self.user@,
            port: self.port,
            identity_file: self.identity_file.deep_view(),
            tags: self.tags.deep_view(),
            description: self.description.deep_view(),
        }
    }
}

impl HostView {
    /// The same host under the identifier 0: its contents without its identity.
    pub open spec fn without_id(self) -> HostView {
        HostView {
            id: 0,
            alias: self.alias,
            hostname: self.hostname,
            user: self.user,
            port: self.port,
            identity_file: self.identity_file,
            tags: self.tags,
            description: self.description,
        }
    }

    /// A host with the given alias, address and user, on port 22, with nothing else set.
    pub open spec fn fresh(alias: Seq<char>, hostname: Seq<char>, user: Seq<char>) -> HostView {
        HostView {
            id: 0,
            alias,
            hostname,
            user,
            port: 22,
            identity_file: None,
            tags: Seq::empty(),
            description: None,
        }
    }
}

/// `user@hostname:port`.
pub open spec fn connection_text(h: HostView) -> Seq<char> {
    h.user + "@"@ + h.hostname + ":"@ + decimal(h.port as nat)
}

/// The `~/.ssh/config` block of a host: its `Host`, `HostName`, `User` and
/// `Port` lines, then an `IdentityFile` line and a comment with the description
/// where the host has them.
pub open spec fn config_block(h: HostView) -> Seq<char> {
    "Host "@ + h.alias + "\n    HostName "@ + h.hostname + "\n    User "@ + h.user
        + "\n    Port "@ + decimal(h.port as nat) + match h.identity_file {
        Some(f) => "\n    IdentityFile "@ + f,
        None => Seq::empty(),
    } + match h.description {
        Some(d) => "\n    # "@ + d,
        None => Seq::empty(),
    }
}

/// A copy of an optional string.
pub fn clone_opt_string(s: &Option<String>) -> (r: Option<String>)
    ensures
        r.deep_view() == s.deep_view(),
{
    match s {
        Some(x) => Some(x.clone()),
        None => None,
    }
}

/// A copy of a list of strings.
pub fn clone_strings(v: &Vec<String>) -> (r: Vec<String>)
    ensures
        r.deep_view() == v.deep_view(),
{
    let mut r: Vec<String> = Vec::new();
    let mut i: usize = 0;
    while i < v.len()
        invariant
            0 <= i <= v.len(),
            r@.len() == i,
            r.deep_view() == v.deep_view().take(i as int),
        decreases v.len() - i,
    {
        let ghost old_r = r@;
        r.push(v[i].clone());
        assert(r@[i as int] == v@[i as int]);
        assert forall|j: int| 0 <= j < i + 1 implies r.deep_view()[j] == v.deep_view().take(i + 1)[j] by {
            if j < i {
                assert(r@[j] == old_r[j]);
                assert(old_r.map_values(|x: String| x.deep_view())[j] == v.deep_view().take(i as int)[j]);
            }
        }
        assert(r.deep_view() =~= v.deep_view().take(i + 1));
        i = i + 1;
    }
    assert(v.deep_view().take(v.len() as int) =~= v.deep_view());
    r
}

impl Host {
    /// A new host on port 22 with a fresh identifier and no key, tags or description.
    pub fn new(alias: &str, hostname: &str, user: &str) -> (h: Host)
        ensures
            h@.without_id() == HostView::fresh(alias@, hostname@, user@),
    {
        let h = Host {
            id: new_id(),
            alias: alias.to_string(),
            hostname: hostname.to_string(),
            user: user.to_string(),
            port: 22,
            identity_file: None,
            tags: Vec::new(),
            description: None,
        };
        proof {
            vstd::string::to_string_from_display_ensures_for_str(alias, h.alias);
            vstd::string::to_string_from_display_ensures_for_str(hostname, h.hostname);
            vstd::string::to_string_from_display_ensures_for_str(user, h.user);
            assert(h.tags.deep_view() =~= Seq::<Seq<char>>::empty());
        }
        h
    }

    /// A copy of the host, identifier included.
    pub fn duplicate(&self) -> (h: Host)
        ensures
            h@ == self@,
    {
        Host {
            id: self.id,
            alias: self.alias.clone(),
            hostname: self.hostname.clone(),
            user: self.user.clone(),
            port: self.port,
            identity_file: clone_opt_string(&self.identity_file),
            tags: clone_strings(&self.tags),
            description: clone_opt_string(&self.description),
        }
    }

    /// The name the host is listed under: its alias.
    pub fn display_name(&self) -> (s: &str)
        ensures
            s@ == self.alias@,
    {
        self.alias.as_str()
    }

    /// `user@hostname:port`.
    pub fn connection_string(&self) -> (s: String)
        ensures
            s@ == connection_text(self@),
    {
        let mut s = self.user.clone();
        push_str(&mut s, "@");
        push_str(&mut s, self.hostname.as_str());
        push_str(&mut s, ":");
        push_decimal(&mut s, self.port as u64);
        s
    }

    /// The host's block in `~/.ssh/config` format.
    pub fn to_ssh_config_block(&self) -> (s: String)
        ensures
            s@ == config_block(self@),
    {
        let mut s = String::new();
        push_str(&mut s, "Host ");
        push_str(&mut s, self.alias.as_str());
        push_str(&mut s, "\n    HostName ");
        push_str(&mut s, self.hostname.as_str());
        push_str(&mut s, "\n    User ");
        push_str(&mut s, self.user.as_str());
        push_str(&mut s, "\n    Port ");
        push_decimal(&mut s, self.port as u64);
        if let Some(f) = &self.identity_file {
            push_str(&mut s, "\n    IdentityFile ");
            push_str(&mut s, f.as_str());
        }
        if let Some(d) = &self.description {
            push_str(&mut s, "\n    # ");
            push_str(&mut s, d.as_str());
        }
        s
    }
}


impl Default for Host {
    /// The host a new vault entry starts from: `novo-host`, `192.168.1.1`, user `root`.
    fn default() -> (h: Host)
        ensures
            h@.without_id() == HostView::fresh("novo-host"@, "192.168.1.1"@, "root"@),
    {
        Host::new("novo-host", "192.168.1.1", "root")
    }
}

} // verus!
