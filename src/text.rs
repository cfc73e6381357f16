//! Text building blocks shared by the probes and the report.

use vstd::prelude::*;
use vstd::string::*;

verus! {

/// The ten decimal digits, in order.
pub open spec fn digit_char(d: nat) -> char {
    seq!['0', '1', '2', '3', '4', '5', '6', '7', '8', '9'][d as int]
}

/// Decimal rendering of a natural number, without sign or leading zeros.
pub open spec fn decimal_text(n: nat) -> Seq<char>
    decreases n,
{
    if n < 10 {
        seq![digit_char(n)]
    } else {
        decimal_text(n / 10).push(digit_char(n % 10))
    }
}

/// The mark that renders a probe's success or failure.
pub open spec fn glyph(ok: bool) -> Seq<char> {
    if ok {
        "\u{2705}"@
    } else {
        "\u{274c}"@
    }
}

/// Renders success or failure as its mark.
pub fn glyph_text(ok: bool) -> (r: String)
    ensures
        r@ == glyph(ok),
{
    if ok {
        String::from_str("\u{2705}")
    } else {
        String::from_str("\u{274c}")
    }
}

/// `host:port`, the form a socket address is written in.
pub open spec fn address_text(host: Seq<char>, port: u16) -> Seq<char> {
    host + ":"@ + decimal_text(port as nat)
}

/// Joins a host and a port into a socket address.
pub fn socket_address(host: &str, port: u16) -> (r: String)
    ensures
        r@ == address_text(host@, port),
{
    let mut r = String::from_str(host);
    r.append(":");
    let p = decimal(port as u64);
    r.append(p.as_str());
    r
}

/// Text shown in bold on a terminal: the bold code, the text, the reset code.
pub open spec fn bold(s: Seq<char>) -> Seq<char> {
    seq!['\u{1b}', '[', '1', 'm'] + s + seq!['\u{1b}', '[', '0', 'm']
}

/// Relies on ansi_term's `Style::bold` and `Style::paint`: a bold style writes
/// `ESC[1m` before the text and `ESC[0m` after it.
#[verifier::external_body]
pub(crate) fn bold_text(s: &str) -> (r: String)
    ensures
        r@ == bold(s@),
{
    ansi_term::Style::new().bold().paint(s).to_string()
}

/// A failure status that names what went wrong: the failure mark, ` - `, the reason.
pub fn failure_status(reason: &str) -> (r: String)
    ensures
        r@ == glyph(false) + " - "@ + reason@,
{
    let mut r = glyph_text(false);
    r.append(" - ");
    r.append(reason);
    r
}

/// Whether two strings hold the same characters.
pub fn same_text(a: &str, b: &str) -> (r: bool)
    ensures
        r == (a@ == b@),
{
    let n = a.unicode_len();
    if n != b.unicode_len() {
        return false;
    }
    let mut i: usize = 0;
    while i < n
        invariant
            n == a@.len(),
            n == b@.len(),
            i <= n,
            forall|j: int| 0 <= j < i ==> a@[j] == b@[j],
        decreases n - i,
    {
        if a.get_char(i) != b.get_char(i) {
            return false;
        }
        i += 1;
    }
    assert(a@ =~= b@);
    true
}

fn digit(d: u64) -> (r: &'static str)
    requires
        d < 10,
    ensures
        r@ == seq![digit_char(d as nat)],
{
    let digits = "0123456789";
    proof {
        reveal_strlit("0123456789");
    }
    let r = digits.substring_char(d as usize, d as usize + 1);
    assert(r@ =~= seq![digit_char(d as nat)]);
    r
}

/// Renders `n` in decimal.
pub fn decimal(n: u64) -> (r: String)
    ensures
        r@ == decimal_text(n as nat),
    decreases n,
{
    if n < 10 {
        String::from_str(digit(n))
    } else {
        let mut r = decimal(n / 10);
        r.append(digit(n % 10));
        r
    }
}

} // verus!
