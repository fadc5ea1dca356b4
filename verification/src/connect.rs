use vstd::prelude::*;
use crate::host::{Host, HostView};
use crate::id::new_id;
use crate::ssh_config::port_value;
use crate::text::{parse_u16, to_chars};

verus! {

/// The fields of the quick-connect dialog.
pub struct ConnectDialog {
    pub open: bool,
    pub hostname: String,
    pub user: String,
    pub port: String,
    pub identity_file: String,
    pub password: String,
    pub use_password: bool,
}

/// A connection the dialog asks for: the host, and the password when one is used.
#[derive(Debug)]
pub struct ConnectRequest {
    pub host: Host,
    pub password: Option<String>,
}

/// The host a filled-in dialog describes: the address doubles as alias, the
/// port text gives the port (22 where it is not a number), and the key file is
/// kept only when no password is used.
pub open spec fn requested_host(d: ConnectDialog) -> HostView {
    HostView {
        id: 0,
        alias: d.hostname@,
        hostname: d.hostname@,
        user: d.user@,
        port: port_value(d.port@),
        identity_file: if d.use_password { None } else { Some(d.identity_file@) },
        tags: Seq::empty(),
        description: None,
    }
}

impl ConnectDialog {
    /// A closed dialog with no address, the given user, port 22, the key
    /// `~/.ssh/id_rsa`, and no password.
    pub fn new(default_user: &str) -> (d: ConnectDialog)
        ensures
            !d.open,
            d.hostname@.len() == 0,
            d.user@ == default_user@,
            d.port@ == "22"@,
            d.identity_file@ == "~/.ssh/id_rsa"@,
            d.password@.len() == 0,
            !d.use_password,
    {
        let d = ConnectDialog {
            open: false,
            hostname: String::new(),
            user: default_user.to_string(),
            port: String::from_str("22"),
            identity_file: String::from_str("~/.ssh/id_rsa"),
            password: String::new(),
            use_password: false,
        };
        proof {
            vstd::string::to_string_from_display_ensures_for_str(default_user, d.user);
        }
        d
    }

    /// Whether the dialog is filled in enough to connect: an address and a user.
    pub fn can_connect(&self) -> (b: bool)
        ensures
            b == (self.hostname@.len() > 0 && self.user@.len() > 0),
    {
        !self.hostname.as_str().is_empty() && !self.user.as_str().is_empty()
    }

    /// The "Conectar" button: when the dialog is filled in, closes it and gives
    /// the connection it asks for; otherwise nothing changes and nothing is given.
    pub fn submit(&mut self) -> (r: Option<ConnectRequest>)
        ensures
            r is Some <==> (old(self).hostname@.len() > 0 && old(self).user@.len() > 0),
            r matches Some(req) ==> {
                &&& req.host@.without_id() == requested_host(*old(self))
                &&& req.password.deep_view() == if old(self).use_password {
                    Some(old(self).password@)
                } else {
                    None
                }
                &&& !final(self).open
            },
            r is None ==> final(self).open == old(self).open,
            final(self).hostname == old(self).hostname,
            final(self).user == old(self).user,
            final(self).port == old(self).port,
            final(self).identity_file == old(self).identity_file,
            final(self).password == old(self).password,
            final(self).use_password == old(self).use_password,
    {
        let r = self.request();
        if r.is_some() {
            self.open = false;
        }
        r
    }

    /// The connection the dialog asks for, under a fresh identifier; none while
    /// the address or the user is empty.
    pub fn request(&self) -> (r: Option<ConnectRequest>)
        ensures
            r is Some <==> (self.hostname@.len() > 0 && self.user@.len() > 0),
            r matches Some(req) ==> {
                &&& req.host@.without_id() == requested_host(*self)
                &&& req.password.deep_view() == if self.use_password {
                    Some(self.password@)
                } else {
                    None
                }
            },
    {
        if !self.can_connect() {
            return None;
        }
        let pc = to_chars(self.port.as_str());
        assert(pc@.subrange(0, pc@.len() as int) =~= pc@);
        let port = match parse_u16(&pc, 0, pc.len()) {
            Some(n) => n,
            None => 22,
        };
        let host = Host {
            id: new_id(),
            alias: self.hostname.clone(),
            hostname: self.hostname.clone(),
            user: self.user.clone(),
            port,
            identity_file: if self.use_password {
                None
            } else {
                Some(self.identity_file.clone())
            },
            tags: Vec::new(),
            description: None,
        };
        let password = if self.use_password {
            Some(self.password.clone())
        } else {
            None
        };
        assert(host.tags.deep_view() =~= Seq::<Seq<char>>::empty());
        Some(ConnectRequest { host, password })
    }
}

} // verus!
