//! From configuration items to report text: which probe each item gets, the
//! two-line fragment that shows its result, and the ordered report.

use vstd::prelude::*;
use vstd::string::*;
use crate::config::{
    kind_of, item_kind, parse_port, port_of, ConfigItem, ItemKind, Service, DEFAULT_SSH_PORT,
    DEFAULT_WEB_PORT,
};
use crate::probes::{
    banner_status, dns_query, dns_query_bytes, dns_reply_ok, dns_reply_status, request_url,
    request_url_text, ssh_banner_status, utf8_lossy,
};
use crate::text::{address_text, glyph, glyph_text, socket_address};

verus! {

/// Port a DNS resolver answers on.
pub const DNS_PORT: u16 = 53;

/// The `i`th parameter of an item, where it has one.
pub open spec fn param(ci: ConfigItem, i: int) -> Option<Seq<char>> {
    if 0 <= i < ci.cidata@.len() {
        Some(ci.cidata@[i]@)
    } else {
        None
    }
}

/// The port an item names in its second parameter, or `default`.
pub open spec fn port_param(ci: ConfigItem, default: u16) -> u16 {
    match param(ci, 1) {
        Some(p) => match port_of(p) {
            Some(v) => v,
            None => default,
        },
        None => default,
    }
}

impl ConfigItem {
    /// Whether the item may be probed. Every item may: a missing parameter
    /// shows as a failed probe, not as invalid data.
    pub open spec fn valid(self) -> bool {
        true
    }

    /// Checks whether the item may be probed.
    pub fn verify_valid_data(&self) -> (r: bool)
        ensures
            r == self.valid(),
    {
        true
    }

    pub open spec fn kind(self) -> ItemKind {
        kind_of(self.citype@)
    }

    fn param_at(&self, i: usize) -> (r: Option<&String>)
        ensures
            match r {
                Some(s) => param(*self, i as int) == Some(s@),
                None => param(*self, i as int) is None,
            },
    {
        if i < self.cidata.len() {
            Some(&self.cidata[i])
        } else {
            None
        }
    }

    fn port_or(&self, default: u16) -> (r: u16)
        ensures
            r == port_param(*self, default),
    {
        match self.param_at(1) {
            Some(p) => match parse_port(p.as_str()) {
                Some(v) => v,
                None => default,
            },
            None => default,
        }
    }

    /// The port a web server item is probed on.
    pub fn web_port(&self) -> (r: u16)
        ensures
            r == port_param(*self, DEFAULT_WEB_PORT),
    {
        self.port_or(DEFAULT_WEB_PORT)
    }

    /// The port an SSH server item is probed on.
    pub fn ssh_port(&self) -> (r: u16)
        ensures
            r == port_param(*self, DEFAULT_SSH_PORT),
    {
        self.port_or(DEFAULT_SSH_PORT)
    }
}

/// The single network interaction that checks an item.
#[derive(Debug)]
pub enum Probe {
    /// Send one echo request to the host.
    Ping(String),
    /// Request the URL with a GET, accepting any certificate.
    Http(String),
    /// Connect to the address and read what the server sends first.
    Ssh(String),
    /// Send the query in one datagram to the address and read one reply.
    Dns(String, Vec<u8>),
    /// Nothing can be sent: the probe fails.
    Nothing,
}

/// A probe as plain values.
pub enum ProbeView {
    Ping(Seq<char>),
    Http(Seq<char>),
    Ssh(Seq<char>),
    Dns(Seq<char>, Seq<u8>),
    Nothing,
}

impl View for Probe {
    type V = ProbeView;

    open spec fn view(&self) -> ProbeView {
        match self {
            Probe::Ping(h) => ProbeView::Ping(h@),
            Probe::Http(u) => ProbeView::Http(u@),
            Probe::Ssh(a) => ProbeView::Ssh(a@),
            Probe::Dns(a, q) => ProbeView::Dns(a@, q@),
            Probe::Nothing => ProbeView::Nothing,
        }
    }
}

/// The domain whose address a DNS probe asks for.
pub open spec fn probe_domain() -> Seq<u8> {
    "google.com".spec_bytes()
}

/// The probe an item gets, by its kind and parameters.
pub open spec fn planned_probe(ci: ConfigItem) -> ProbeView {
    match param(ci, 0) {
        None => ProbeView::Nothing,
        Some(target) => match ci.kind() {
            ItemKind::HostMachine => ProbeView::Ping(target),
            ItemKind::WebServer => match request_url_text(target, port_param(ci, DEFAULT_WEB_PORT)) {
                Some(u) => ProbeView::Http(u),
                None => ProbeView::Nothing,
            },
            ItemKind::SshServer => ProbeView::Ssh(
                address_text(target, port_param(ci, DEFAULT_SSH_PORT)),
            ),
            ItemKind::DnsServer => match dns_query_bytes(probe_domain()) {
                Some(q) => ProbeView::Dns(address_text(target, DNS_PORT), q),
                None => ProbeView::Nothing,
            },
        },
    }
}

/// Decides the probe for an item.
pub fn plan_probe(ci: &ConfigItem) -> (r: Probe)
    ensures
        r@ == planned_probe(*ci),
{
    let target = match ci.param_at(0) {
        None => return Probe::Nothing,
        Some(t) => t,
    };
    match item_kind(ci.citype.as_str()) {
        ItemKind::HostMachine => Probe::Ping(target.clone()),
        ItemKind::WebServer => match request_url(target.as_str(), ci.web_port()) {
            Some(u) => Probe::Http(u),
            None => Probe::Nothing,
        },
        ItemKind::SshServer => Probe::Ssh(socket_address(target.as_str(), ci.ssh_port())),
        ItemKind::DnsServer => match dns_query("google.com") {
            Some(q) => Probe::Dns(socket_address(target.as_str(), DNS_PORT), q),
            None => Probe::Nothing,
        },
    }
}

} // verus!

verus! {

/// What running a probe gave.
#[derive(Debug)]
pub enum Outcome {
    /// A ping or web probe: whether it succeeded.
    Reached(bool),
    /// An SSH or DNS probe: the bytes that came back, empty where none came.
    Received(Vec<u8>),
}

/// The label an item's kind is shown with.
pub open spec fn kind_label(k: ItemKind) -> Seq<char> {
    match k {
        ItemKind::HostMachine => "Host Machine"@,
        ItemKind::WebServer => "Web Server"@,
        ItemKind::SshServer => "SSH Server"@,
        ItemKind::DnsServer => "DNS Server"@,
    }
}

/// Indentation of the status line under an item's name.
pub open spec fn status_indent() -> Seq<char> {
    "\n        "@
}

/// A labelled result: the label, `: `, and the result.
pub open spec fn labelled(label: Seq<char>, result: Seq<char>) -> Seq<char> {
    label + ": "@ + result
}

/// The two lines that show an item: its name and kind, then its status.
pub open spec fn fragment_text(name: Seq<char>, k: ItemKind, status: Seq<char>) -> Seq<char> {
    name + " - "@ + kind_label(k) + status_indent() + status
}

/// Renders a probe's success or failure after a label.
pub fn print_bool_result_emoji(text: &str, result: bool) -> (r: String)
    ensures
        r@ == labelled(text@, glyph(result)),
{
    let mut r = String::from_str(text);
    r.append(": ");
    let g = glyph_text(result);
    r.append(g.as_str());
    r
}

fn fragment(ci: &ConfigItem, label: &str, status: &str) -> (r: String)
    ensures
        r@ == ci.ciname@ + " - "@ + label@ + status_indent() + status@,
{
    let mut r = ci.ciname.clone();
    r.append(" - ");
    r.append(label);
    r.append("\n        ");
    r.append(status);
    r
}

/// Fragment of a host, from whether it answered a ping.
pub fn hostmachine_status(ci: &ConfigItem, reachable: bool) -> (r: String)
    ensures
        r@ == fragment_text(ci.ciname@, ItemKind::HostMachine, labelled("Can ping"@, glyph(reachable))),
{
    let status = print_bool_result_emoji("Can ping", reachable);
    fragment(ci, "Host Machine", status.as_str())
}

/// Fragment of a web server, from whether it answered with a 2xx status.
pub fn webserver_status(ci: &ConfigItem, up: bool) -> (r: String)
    ensures
        r@ == fragment_text(ci.ciname@, ItemKind::WebServer, labelled("Web Server Up"@, glyph(up))),
{
    let status = print_bool_result_emoji("Web Server Up", up);
    fragment(ci, "Web Server", status.as_str())
}

/// Fragment of an SSH server, from the status its banner gave.
pub fn ssh_status(ci: &ConfigItem, status: &str) -> (r: String)
    ensures
        r@ == fragment_text(ci.ciname@, ItemKind::SshServer, labelled("SSH Server Up"@, status@)),
{
    let line = labelled_text("SSH Server Up", status);
    fragment(ci, "SSH Server", line.as_str())
}

/// Fragment of a DNS resolver, from the status its reply gave.
pub fn dns_status(ci: &ConfigItem, status: &str) -> (r: String)
    ensures
        r@ == fragment_text(ci.ciname@, ItemKind::DnsServer, labelled("DNS Server Up"@, status@)),
{
    let line = labelled_text("DNS Server Up", status);
    fragment(ci, "DNS Server", line.as_str())
}

fn labelled_text(label: &str, result: &str) -> (r: String)
    ensures
        r@ == labelled(label@, result@),
{
    let mut r = String::from_str(label);
    r.append(": ");
    r.append(result);
    r
}

/// Whether an outcome counts as a success for a ping or web probe.
pub open spec fn reached(o: Outcome) -> bool {
    match o {
        Outcome::Reached(b) => b,
        Outcome::Received(_) => false,
    }
}

/// The fragment that shows an item of the given kind with the given outcome.
pub open spec fn item_fragment_text(ci: ConfigItem, o: Outcome) -> Seq<char> {
    if !ci.valid() {
        "Invalid data for Configuration Item "@ + ci.ciname@
    } else {
        match ci.kind() {
            ItemKind::HostMachine => fragment_text(
                ci.ciname@,
                ItemKind::HostMachine,
                labelled("Can ping"@, glyph(reached(o))),
            ),
            ItemKind::WebServer => fragment_text(
                ci.ciname@,
                ItemKind::WebServer,
                labelled("Web Server Up"@, glyph(reached(o))),
            ),
            ItemKind::SshServer => fragment_text(
                ci.ciname@,
                ItemKind::SshServer,
                labelled(
                    "SSH Server Up"@,
                    match o {
                        Outcome::Received(b) => banner_status(utf8_lossy(b@)),
                        Outcome::Reached(_) => glyph(false),
                    },
                ),
            ),
            ItemKind::DnsServer => fragment_text(
                ci.ciname@,
                ItemKind::DnsServer,
                labelled(
                    "DNS Server Up"@,
                    match o {
                        Outcome::Received(b) => glyph(dns_reply_ok(b@)),
                        Outcome::Reached(_) => glyph(false),
                    },
                ),
            ),
        }
    }
}

/// Renders an item with the outcome of its probe.
pub fn item_fragment(ci: &ConfigItem, outcome: &Outcome) -> (r: String)
    ensures
        r@ == item_fragment_text(*ci, *outcome),
{
    if !ci.verify_valid_data() {
        let mut r = String::from_str("Invalid data for Configuration Item ");
        r.append(ci.ciname.as_str());
        return r;
    }
    match item_kind(ci.citype.as_str()) {
        ItemKind::HostMachine => hostmachine_status(ci, matches!(outcome, Outcome::Reached(true))),
        ItemKind::WebServer => webserver_status(ci, matches!(outcome, Outcome::Reached(true))),
        ItemKind::SshServer => {
            let status = match outcome {
                Outcome::Received(b) => ssh_banner_status(b.as_slice()),
                Outcome::Reached(_) => glyph_text(false),
            };
            ssh_status(ci, status.as_str())
        },
        ItemKind::DnsServer => {
            let status = match outcome {
                Outcome::Received(b) => dns_reply_status(b.as_slice()),
                Outcome::Reached(_) => glyph_text(false),
            };
            dns_status(ci, status.as_str())
        },
    }
}

} // verus!
