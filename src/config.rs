//! The monitored configuration: services, their items, and what an item's
//! kind and parameters mean.

use vstd::prelude::*;
use vstd::string::*;
use crate::text::same_text;

verus! {

/// Port probed on a web server whose port parameter is absent or unreadable.
pub const DEFAULT_WEB_PORT: u16 = 80;

/// Port probed on an SSH server whose port parameter is absent or unreadable.
pub const DEFAULT_SSH_PORT: u16 = 22;

/// One monitored endpoint.
#[derive(Debug, Clone)]
pub struct ConfigItem {
    /// Display name, unique within its service.
    pub ciname: String,
    /// Declared kind: `Hostmachine`, `Webserver`, `SSHServer` or `DNSServer`.
    pub citype: String,
    /// Kind-dependent parameters; the first one is the host, URL or resolver.
    pub cidata: Vec<String>,
}

/// A named group of items, reported together under one header.
#[derive(Debug, Clone)]
pub struct Service {
    pub name: String,
    pub desc: String,
    pub cilist: Vec<ConfigItem>,
}

/// The probe an item gets. A kind that is not recognised is treated as a host.
#[derive(Debug, Clone, Copy, PartialEq, Eq, Structural)]
pub enum ItemKind {
    HostMachine,
    WebServer,
    SshServer,
    DnsServer,
}

pub open spec fn kind_of(citype: Seq<char>) -> ItemKind {
    if citype == "Webserver"@ {
        ItemKind::WebServer
    } else if citype == "SSHServer"@ {
        ItemKind::SshServer
    } else if citype == "DNSServer"@ {
        ItemKind::DnsServer
    } else {
        ItemKind::HostMachine
    }
}

/// Reads the kind an item declares; anything unrecognised falls back to a host.
pub fn item_kind(citype: &str) -> (r: ItemKind)
    ensures
        r == kind_of(citype@),
{
    if same_text(citype, "Webserver") {
        ItemKind::WebServer
    } else if same_text(citype, "SSHServer") {
        ItemKind::SshServer
    } else if same_text(citype, "DNSServer") {
        ItemKind::DnsServer
    } else {
        ItemKind::HostMachine
    }
}

pub open spec fn is_digit(c: char) -> bool {
    '0' <= c && c <= '9'
}

pub open spec fn all_digits(s: Seq<char>) -> bool {
    forall|i: int| 0 <= i < s.len() ==> is_digit(#[trigger] s[i])
}

/// Value of a run of decimal digits, most significant first.
pub open spec fn digits_value(s: Seq<char>) -> nat
    decreases s.len(),
{
    if s.len() == 0 {
        0
    } else {
        digits_value(s.drop_last()) * 10 + (s.last() as nat - '0' as nat) as nat
    }
}

/// The digits of a port number: the text without one leading `+`.
pub open spec fn port_digits(s: Seq<char>) -> Seq<char> {
    if s.len() > 0 && s[0] == '+' {
        s.drop_first()
    } else {
        s
    }
}

/// A port number as text: an optional `+`, then one or more decimal digits
/// whose value fits 16 bits.
pub open spec fn port_of(s: Seq<char>) -> Option<u16> {
    let d = port_digits(s);
    if d.len() > 0 && all_digits(d) && digits_value(d) <= 65535 {
        Some(digits_value(d) as u16)
    } else {
        None
    }
}

/// Reads a port number, as Rust reads a `u16` from text.
pub fn parse_port(s: &str) -> (r: Option<u16>)
    ensures
        r == port_of(s@),
{
    let n = s.unicode_len();
    let start: usize = if n > 0 && s.get_char(0) == '+' {
        1
    } else {
        0
    };
    let ghost d = port_digits(s@);
    assert(d =~= s@.subrange(start as int, n as int));
    if start == n {
        assert(d.len() == 0);
        return None;
    }
    // Saturates at one past the largest port.
    let mut v: u32 = 0;
    let mut i: usize = start;
    while i < n
        invariant
            n == s@.len(),
            start <= i <= n,
            d == port_digits(s@),
            d =~= s@.subrange(start as int, n as int),
            forall|j: int| 0 <= j < i - start ==> is_digit(#[trigger] d[j]),
            v as nat == if digits_value(d.subrange(0, i - start)) <= 65535 {
                digits_value(d.subrange(0, i - start))
            } else {
                65536
            },
        decreases n - i,
    {
        let c = s.get_char(i);
        if !('0' <= c && c <= '9') {
            assert(!is_digit(d[i - start]));
            return None;
        }
        let ghost p = d.subrange(0, i - start);
        let ghost q = d.subrange(0, i + 1 - start);
        assert(q.drop_last() =~= p);
        let dv = (c as u32) - ('0' as u32);
        proof {
            let pv = digits_value(p);
            assert(digits_value(q) == pv * 10 + dv);
            if pv > 65535 {
                assert(pv * 10 + dv > 65535) by (nonlinear_arith)
                    requires pv > 65535;
            }
        }
        if v > 65535 || v * 10 + dv > 65535 {
            v = 65536;
        } else {
            v = v * 10 + dv;
        }
        i += 1;
    }
    assert(d.subrange(0, n - start) =~= d);
    if v > 65535 {
        None
    } else {
        Some(v as u16)
    }
}

} // verus!
