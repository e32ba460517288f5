//! Addresses of users, devices, groups and servers: `user@server`, or with
//! an agent and a device, `user.agent:device@server`.

use vstd::prelude::*;
use crate::node::str_eq;
use crate::text::{chars_of, dec, find, find_char, parse_bounded, parse_number, push_all, push_decimal, string_of};

verus! {

pub const DEFAULT_USER_SERVER: &'static str = "s.whatsapp.net";
pub const GROUP_SERVER: &'static str = "g.us";
pub const LEGACY_USER_SERVER: &'static str = "c.us";
pub const BROADCAST_SERVER: &'static str = "broadcast";
pub const HIDDEN_USER_SERVER: &'static str = "lid";
pub const NEWSLETTER_SERVER: &'static str = "newsletter";

/// An address on the network.
#[derive(Clone, Debug, Eq, Hash)]
pub struct Jid {
    pub user: String,
    pub raw_agent: u8,
    pub device: u16,
    pub integrator: u16,
    pub server: String,
}

/// `a` and `b` are the same address.
pub open spec fn same_jid(a: Jid, b: Jid) -> bool {
    &&& a.user@ == b.user@
    &&& a.raw_agent == b.raw_agent
    &&& a.device == b.device
    &&& a.integrator == b.integrator
    &&& a.server@ == b.server@
}

impl PartialEq for Jid {
    fn eq(&self, o: &Jid) -> (r: bool) {
        str_eq(self.user.as_str(), o.user.as_str()) && self.raw_agent == o.raw_agent && self.device == o.device
            && self.integrator == o.integrator && str_eq(self.server.as_str(), o.server.as_str())
    }
}

impl vstd::std_specs::cmp::PartialEqSpecImpl for Jid {
    open spec fn obeys_eq_spec() -> bool {
        true
    }

    open spec fn eq_spec(&self, o: &Jid) -> bool {
        same_jid(*self, *o)
    }
}

/// A text that is no address.
#[derive(Clone, Copy, Debug)]
pub struct JidParseError;

/// The text form of an address.
pub open spec fn jid_text(j: Jid) -> Seq<char> {
    if j.raw_agent > 0 {
        j.user@ + seq!['.'] + dec(j.raw_agent as nat) + seq![':'] + dec(j.device as nat) + seq!['@'] + j.server@
    } else if j.device > 0 {
        j.user@ + seq![':'] + dec(j.device as nat) + seq!['@'] + j.server@
    } else if j.user@.len() > 0 {
        j.user@ + seq!['@'] + j.server@
    } else {
        j.server@
    }
}

/// The user part before `@`: `user`, `user:device`, `user.agent` or
/// `user.agent:device`; gives user, agent and device.
pub open spec fn parse_user_part(u: Seq<char>) -> Option<(Seq<char>, nat, nat)> {
    match find(u, '.') {
        Some(i) => {
            let rest = u.skip(i as int + 1);
            match find(rest, ':') {
                None => match parse_bounded(rest, 255) {
                    Some(a) => Some((u.take(i as int), a, 0)),
                    None => None,
                },
                Some(j) => match parse_bounded(rest.take(j as int), 255) {
                    Some(a) => if find(rest.skip(j as int + 1), ':') is Some {
                        Some((u.take(i as int), a, 0))
                    } else {
                        match parse_bounded(rest.skip(j as int + 1), 65535) {
                            Some(d) => Some((u.take(i as int), a, d)),
                            None => None,
                        }
                    },
                    None => None,
                },
            }
        },
        None => match find(u, ':') {
            Some(j) => match parse_bounded(u.skip(j as int + 1), 65535) {
                Some(d) => Some((u.take(j as int), 0, d)),
                None => None,
            },
            None => Some((u, 0, 0)),
        },
    }
}

/// What an address text denotes: user, agent, device and server. A text
/// without `@` is a server alone; one with two or more `@` is no address.
pub open spec fn parse_jid(s: Seq<char>) -> Option<(Seq<char>, nat, nat, Seq<char>)> {
    match find(s, '@') {
        None => Some((Seq::empty(), 0, 0, s)),
        Some(i) => {
            let server = s.skip(i as int + 1);
            if find(server, '@') is Some {
                None
            } else {
                match parse_user_part(s.take(i as int)) {
                    Some((u, a, d)) => Some((u, a, d, server)),
                    None => None,
                }
            }
        },
    }
}

fn slice_of(v: &[char], a: usize, b: usize) -> (r: &[char])
    requires
        a <= b <= v@.len(),
    ensures
        r@ == v@.subrange(a as int, b as int),
{
    vstd::slice::slice_subrange(v, a, b)
}

impl Jid {
    /// A regular address `user@server`.
    pub fn new(user: &str, server: &str) -> (r: Jid)
        ensures
            r.user@ == user@,
            r.server@ == server@,
            r.raw_agent == 0 && r.device == 0 && r.integrator == 0,
    {
        Jid { user: user.to_owned(), raw_agent: 0, device: 0, integrator: 0, server: server.to_owned() }
    }

    /// A device address `user.agent:device@server`.
    pub fn new_ad(user: &str, agent: u8, device: u16, server: &str) -> (r: Jid)
        ensures
            r.user@ == user@,
            r.server@ == server@,
            r.raw_agent == agent && r.device == device && r.integrator == 0,
    {
        Jid { user: user.to_owned(), raw_agent: agent, device, integrator: 0, server: server.to_owned() }
    }

    /// The address of a server: no user.
    pub fn server(server: &str) -> (r: Jid)
        ensures
            r.user@.len() == 0,
            r.server@ == server@,
            r.raw_agent == 0 && r.device == 0 && r.integrator == 0,
    {
        proof {
            reveal_strlit("");
        }
        Jid::new("", server)
    }

    /// The group server.
    pub fn group_server() -> (r: Jid)
        ensures
            r.user@.len() == 0 && r.server@ == GROUP_SERVER@,
            r.raw_agent == 0 && r.device == 0 && r.integrator == 0,
    {
        Jid::server(GROUP_SERVER)
    }

    /// The default user server.
    pub fn default_server() -> (r: Jid)
        ensures
            r.user@.len() == 0 && r.server@ == DEFAULT_USER_SERVER@,
            r.raw_agent == 0 && r.device == 0 && r.integrator == 0,
    {
        Jid::server(DEFAULT_USER_SERVER)
    }

    /// The broadcast server.
    pub fn broadcast_server() -> (r: Jid)
        ensures
            r.user@.len() == 0 && r.server@ == BROADCAST_SERVER@,
            r.raw_agent == 0 && r.device == 0 && r.integrator == 0,
    {
        Jid::server(BROADCAST_SERVER)
    }

    /// The status broadcast address.
    pub fn status_broadcast() -> (r: Jid)
        ensures
            r.user@ == "status"@ && r.server@ == BROADCAST_SERVER@,
            r.raw_agent == 0 && r.device == 0 && r.integrator == 0,
    {
        Jid::new("status", BROADCAST_SERVER)
    }

    /// The user part as a number; 0 where it is no decimal number that fits
    /// 64 bits.
    pub fn user_int(&self) -> (r: u64)
        ensures
            match parse_bounded(self.user@, u64::MAX as nat) {
                Some(v) => r == v,
                None => r == 0,
            },
    {
        let chars = chars_of(self.user.as_str());
        match parse_number(chars.as_slice(), u64::MAX) {
            Some(v) => v,
            None => 0,
        }
    }

    /// The same address without agent and device.
    pub fn to_non_ad(&self) -> (r: Jid)
        ensures
            r.user@ == self.user@ && r.server@ == self.server@,
            r.raw_agent == 0 && r.device == 0 && r.integrator == self.integrator,
    {
        Jid {
            user: self.user.clone(),
            raw_agent: 0,
            device: 0,
            integrator: self.integrator,
            server: self.server.clone(),
        }
    }

    /// Whether this is the empty address: no server.
    pub fn is_empty(&self) -> (r: bool)
        ensures
            r == (self.server@.len() == 0),
    {
        self.server.as_str().is_empty()
    }

    /// Whether this is a broadcast list: on the broadcast server, other than
    /// the status broadcast.
    pub fn is_broadcast_list(&self) -> (r: bool)
        ensures
            r == (self.server@ == BROADCAST_SERVER@ && self.user@ != "status"@),
    {
        str_eq(self.server.as_str(), BROADCAST_SERVER) && !str_eq(self.user.as_str(), "status")
    }

    /// The text form: `user.agent:device@server`, `user:device@server`,
    /// `user@server` or `server`, whichever is the shortest that keeps every
    /// part that is set.
    pub fn to_string(&self) -> (r: String)
        ensures
            r@ == jid_text(*self),
    {
        let user = chars_of(self.user.as_str());
        let server = chars_of(self.server.as_str());
        let mut out: Vec<char> = Vec::new();
        if self.raw_agent > 0 {
            push_all(&mut out, user.as_slice());
            out.push('.');
            push_decimal(&mut out, self.raw_agent as u64);
            out.push(':');
            push_decimal(&mut out, self.device as u64);
            out.push('@');
            push_all(&mut out, server.as_slice());
        } else if self.device > 0 {
            push_all(&mut out, user.as_slice());
            out.push(':');
            push_decimal(&mut out, self.device as u64);
            out.push('@');
            push_all(&mut out, server.as_slice());
        } else if user.len() > 0 {
            push_all(&mut out, user.as_slice());
            out.push('@');
            push_all(&mut out, server.as_slice());
        } else {
            push_all(&mut out, server.as_slice());
        }
        assert(out@ =~= jid_text(*self));
        string_of(out.as_slice())
    }

    /// Reads an address from its text form.
    pub fn parse(s: &str) -> (r: Result<Jid, JidParseError>)
        ensures
            match parse_jid(s@) {
                Some((u, a, d, sv)) => r matches Ok(j) && j.user@ == u && j.raw_agent as nat == a
                    && j.device as nat == d && j.integrator == 0 && j.server@ == sv,
                None => r is Err,
            },
    {
        let chars = chars_of(s);
        let cs = chars.as_slice();
        let n = cs.len();
        let at = match find_char(cs, '@') {
            None => return Ok(Jid::server(s)),
            Some(i) => i,
        };
        let server = slice_of(cs, at + 1, n);
        if find_char(server, '@').is_some() {
            return Err(JidParseError);
        }
        let user = slice_of(cs, 0, at);
        assert(user@ =~= s@.take(at as int));
        assert(server@ =~= s@.skip(at + 1));
        let server_s = string_of(server);
        match find_char(user, '.') {
            Some(i) => {
                let u0 = slice_of(user, 0, i);
                let rest = slice_of(user, i + 1, user.len());
                assert(u0@ =~= user@.take(i as int));
                assert(rest@ =~= user@.skip(i as int + 1));
                match find_char(rest, ':') {
                    None => match parse_number(rest, 255) {
                        Some(a) => Ok(Jid { user: string_of(u0), raw_agent: a as u8, device: 0, integrator: 0, server: server_s }),
                        None => Err(JidParseError),
                    },
                    Some(j) => {
                        let a_s = slice_of(rest, 0, j);
                        let tail = slice_of(rest, j + 1, rest.len());
                        assert(a_s@ =~= rest@.take(j as int));
                        assert(tail@ =~= rest@.skip(j as int + 1));
                        let a = match parse_number(a_s, 255) {
                            Some(a) => a,
                            None => return Err(JidParseError),
                        };
                        if find_char(tail, ':').is_some() {
                            Ok(Jid { user: string_of(u0), raw_agent: a as u8, device: 0, integrator: 0, server: server_s })
                        } else {
                            match parse_number(tail, 65535) {
                                Some(d) => Ok(Jid { user: string_of(u0), raw_agent: a as u8, device: d as u16, integrator: 0, server: server_s }),
                                None => Err(JidParseError),
                            }
                        }
                    },
                }
            },
            None => match find_char(user, ':') {
                Some(j) => {
                    let u0 = slice_of(user, 0, j);
                    let tail = slice_of(user, j + 1, user.len());
                    assert(u0@ =~= user@.take(j as int));
                    assert(tail@ =~= user@.skip(j as int + 1));
                    match parse_number(tail, 65535) {
                        Some(d) => Ok(Jid { user: string_of(u0), raw_agent: 0, device: d as u16, integrator: 0, server: server_s }),
                        None => Err(JidParseError),
                    }
                },
                None => Ok(Jid { user: string_of(user), raw_agent: 0, device: 0, integrator: 0, server: server_s }),
            },
        }
    }
}

impl JidParseError {
    /// What went wrong, for people.
    pub fn message(&self) -> (r: &'static str)
        ensures
            r@ == "invalid JID format"@,
    {
        "invalid JID format"
    }
}

impl core::str::FromStr for Jid {
    type Err = JidParseError;

    fn from_str(s: &str) -> Result<Jid, JidParseError> {
        Jid::parse(s)
    }
}

} // verus!
