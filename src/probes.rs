//! What the probes send, and how what they get back is classified.

use vstd::prelude::*;
use vstd::string::*;
use crate::text::{decimal, decimal_text, failure_status, glyph, glyph_text};

verus! {

/// `.`, the byte that separates the labels of a domain name.
pub const LABEL_SEPARATOR: u8 = 46;

/// The longest label a DNS name may hold.
pub const MAX_LABEL_LEN: usize = 63;

/// The labels of a domain name: its bytes split at every `.`, empty labels kept.
pub open spec fn split_labels(b: Seq<u8>) -> Seq<Seq<u8>>
    decreases b.len(),
{
    if b.len() == 0 {
        seq![Seq::empty()]
    } else {
        let rest = split_labels(b.drop_last());
        if b.last() == LABEL_SEPARATOR {
            rest.push(Seq::empty())
        } else {
            rest.update(rest.len() - 1, rest.last().push(b.last()))
        }
    }
}

proof fn lemma_split_labels_nonempty(b: Seq<u8>)
    ensures
        split_labels(b).len() >= 1,
    decreases b.len(),
{
    if b.len() > 0 {
        lemma_split_labels_nonempty(b.drop_last());
    }
}

/// Each label preceded by its length.
pub open spec fn encode_labels(ls: Seq<Seq<u8>>) -> Seq<u8>
    decreases ls.len(),
{
    if ls.len() == 0 {
        Seq::empty()
    } else {
        encode_labels(ls.drop_last()) + seq![ls.last().len() as u8] + ls.last()
    }
}

pub open spec fn labels_fit(ls: Seq<Seq<u8>>) -> bool {
    forall|i: int| 0 <= i < ls.len() ==> #[trigger] ls[i].len() <= MAX_LABEL_LEN
}

/// Header of the query: transaction ID 0x1234, a standard query with
/// recursion desired, one question and no other records.
pub open spec fn query_header() -> Seq<u8> {
    seq![0x12u8, 0x34, 0x01, 0x00, 0x00, 0x01, 0x00, 0x00, 0x00, 0x00, 0x00, 0x00]
}

/// Type A, class IN.
pub open spec fn query_trailer() -> Seq<u8> {
    seq![0x00u8, 0x01, 0x00, 0x01]
}

/// The query for the address of a domain, or none where a label is too long.
pub open spec fn dns_query_bytes(domain: Seq<u8>) -> Option<Seq<u8>> {
    let ls = split_labels(domain);
    if labels_fit(ls) {
        Some(query_header() + encode_labels(ls) + seq![0u8] + query_trailer())
    } else {
        None
    }
}

/// Builds the single-question query that asks a resolver for the address of
/// `domain`; none where a label of it exceeds 63 bytes.
pub fn dns_query(domain: &str) -> (r: Option<Vec<u8>>)
    ensures
        match r {
            Some(q) => dns_query_bytes(domain.spec_bytes()) == Some(q@),
            None => dns_query_bytes(domain.spec_bytes()) is None,
        },
{
    let b = domain.as_bytes();
    let ghost bs = domain.spec_bytes();
    let mut done: Vec<Vec<u8>> = Vec::new();
    let mut cur: Vec<u8> = Vec::new();
    let ghost mut labels: Seq<Seq<u8>> = Seq::empty();
    let mut i: usize = 0;
    while i < b.len()
        invariant
            b@ == bs,
            bs == domain.spec_bytes(),
            i <= b@.len(),
            done@.len() == labels.len(),
            forall|k: int| 0 <= k < labels.len() ==> #[trigger] done@[k]@ == labels[k],
            split_labels(bs.subrange(0, i as int)) == labels.push(cur@),
        decreases b@.len() - i,
    {
        let c = b[i];
        let ghost p = bs.subrange(0, i as int);
        assert(bs.subrange(0, i + 1).drop_last() =~= p);
        proof {
            lemma_split_labels_nonempty(p);
        }
        if c == LABEL_SEPARATOR {
            proof {
                labels = labels.push(cur@);
            }
            done.push(cur);
            cur = Vec::new();
        } else {
            cur.push(c);
            assert(labels.push(cur@) =~= split_labels(p).update(
                split_labels(p).len() - 1,
                split_labels(p).last().push(c),
            ));
        }
        i += 1;
    }
    assert(bs.subrange(0, b@.len() as int) =~= bs);
    proof {
        labels = labels.push(cur@);
    }
    done.push(cur);
    let mut q: Vec<u8> = vec![0x12u8, 0x34, 0x01, 0x00, 0x00, 0x01, 0x00, 0x00, 0x00, 0x00, 0x00, 0x00];
    assert(q@ =~= query_header());
    let mut k: usize = 0;
    while k < done.len()
        invariant
            bs == domain.spec_bytes(),
            labels == split_labels(bs),
            done@.len() == labels.len(),
            forall|j: int| 0 <= j < labels.len() ==> #[trigger] done@[j]@ == labels[j],
            k <= done@.len(),
            forall|j: int| 0 <= j < k ==> #[trigger] labels[j].len() <= MAX_LABEL_LEN,
            q@ == query_header() + encode_labels(labels.subrange(0, k as int)),
        decreases done@.len() - k,
    {
        let len = done[k].len();
        if len > MAX_LABEL_LEN {
            assert(labels[k as int].len() > MAX_LABEL_LEN);
            assert(!labels_fit(labels));
            return None;
        }
        let ghost before = q@;
        q.push(len as u8);
        q.extend_from_slice(done[k].as_slice());
        assert(labels.subrange(0, k + 1).drop_last() =~= labels.subrange(0, k as int));
        assert(q@ =~= before + seq![len as u8] + labels[k as int]);
        k += 1;
    }
    assert(labels.subrange(0, done@.len() as int) =~= labels);
    q.push(0);
    q.push(0x00);
    q.push(0x01);
    q.push(0x00);
    q.push(0x01);
    assert(q@ =~= query_header() + encode_labels(labels) + seq![0u8] + query_trailer());
    Some(q)
}

/// Whether a reply echoes the transaction ID of the query.
pub open spec fn dns_reply_ok(reply: Seq<u8>) -> bool {
    reply.len() >= 2 && reply[0] == 0x12 && reply[1] == 0x34
}

/// Status of a resolver from the datagram it answered with (empty where none
/// came): success exactly when the reply carries the query's transaction ID.
pub fn dns_reply_status(reply: &[u8]) -> (r: String)
    ensures
        r@ == glyph(dns_reply_ok(reply@)),
{
    glyph_text(reply.len() >= 2 && reply[0] == 0x12 && reply[1] == 0x34)
}

} // verus!

verus! {

/// Text of a string of bytes decoded as UTF-8, each invalid sequence replaced
/// by U+FFFD.
pub uninterp spec fn utf8_lossy(b: Seq<u8>) -> Seq<char>;

/// Relies on `String::from_utf8_lossy`: the decoded text depends on the bytes
/// alone, and no bytes decode to no text.
#[verifier::external_body]
fn lossy_text(b: &[u8]) -> (r: String)
    ensures
        r@ == utf8_lossy(b@),
        b@.len() == 0 ==> r@.len() == 0,
{
    String::from_utf8_lossy(b).into_owned()
}

pub open spec fn is_line_end(c: char) -> bool {
    c == '\r' || c == '\n'
}

/// The text without the carriage returns and line feeds at its end.
pub open spec fn trim_line_end(s: Seq<char>) -> Seq<char>
    decreases s.len(),
{
    if s.len() > 0 && is_line_end(s.last()) {
        trim_line_end(s.drop_last())
    } else {
        s
    }
}

/// How every SSH server's first line begins.
pub open spec fn ssh_prefix() -> Seq<char> {
    seq!['S', 'S', 'H', '-']
}

/// Status of an SSH server from the text it greeted with: success, with the
/// banner, when the text begins with `SSH-`; a bare failure mark otherwise.
pub open spec fn banner_status(t: Seq<char>) -> Seq<char> {
    if t.len() >= 4 && t.subrange(0, 4) == ssh_prefix() {
        glyph(true) + " - "@ + trim_line_end(t)
    } else {
        glyph(false)
    }
}

/// Classifies the greeting text of an SSH server.
pub fn ssh_banner_text_status(banner: &str) -> (r: String)
    ensures
        r@ == banner_status(banner@),
{
    let n = banner.unicode_len();
    if n < 4 || banner.get_char(0) != 'S' || banner.get_char(1) != 'S' || banner.get_char(2) != 'H'
        || banner.get_char(3) != '-' {
        proof {
            if banner@.len() >= 4 {
                assert(banner@.subrange(0, 4)[0] == banner@[0]);
                assert(banner@.subrange(0, 4)[1] == banner@[1]);
                assert(banner@.subrange(0, 4)[2] == banner@[2]);
                assert(banner@.subrange(0, 4)[3] == banner@[3]);
            }
        }
        return glyph_text(false);
    }
    assert(banner@.subrange(0, 4) =~= ssh_prefix());
    let mut end: usize = n;
    assert(banner@.subrange(0, n as int) =~= banner@);
    while end > 0
        invariant
            n == banner@.len(),
            end <= n,
            trim_line_end(banner@) == trim_line_end(banner@.subrange(0, end as int)),
        ensures
            end <= n,
            trim_line_end(banner@) == banner@.subrange(0, end as int),
        decreases end,
    {
        let c = banner.get_char(end - 1);
        if c != '\r' && c != '\n' {
            assert(banner@.subrange(0, end as int).last() == c);
            break;
        }
        assert(banner@.subrange(0, end as int).drop_last() =~= banner@.subrange(0, end - 1));
        end -= 1;
    }
    let mut r = glyph_text(true);
    r.append(" - ");
    r.append(banner.substring_char(0, end));
    r
}

/// Classifies what an SSH server sent first (empty where nothing came): the
/// bytes are read as UTF-8 text, then as `ssh_banner_text_status` says.
pub fn ssh_banner_status(received: &[u8]) -> (r: String)
    ensures
        r@ == banner_status(utf8_lossy(received@)),
        received@.len() == 0 ==> r@ == glyph(false),
{
    let t = lossy_text(received);
    ssh_banner_text_status(t.as_str())
}

/// Seconds in a day.
pub const SECONDS_PER_DAY: u64 = 86400;

/// Status of a certificate that expires at `not_after`, read at `now` (both in
/// seconds since the Unix epoch): expired from the instant of expiry on, and
/// otherwise valid for the whole days left.
pub open spec fn expiry_status(not_after: i64, now: i64) -> Seq<char> {
    if not_after <= now {
        glyph(false) + " - Expired"@
    } else {
        glyph(true) + " - Valid For "@ + decimal_text(((not_after - now) / SECONDS_PER_DAY as int) as nat)
            + " days"@
    }
}

/// Classifies a certificate by its expiry time.
pub fn certificate_status(not_after: i64, now: i64) -> (r: String)
    ensures
        r@ == expiry_status(not_after, now),
{
    if not_after <= now {
        let mut r = glyph_text(false);
        r.append(" - Expired");
        r
    } else {
        let left = (not_after as i128 - now as i128) as u64;
        let days = left / SECONDS_PER_DAY;
        let mut r = glyph_text(true);
        r.append(" - Valid For ");
        let d = decimal(days);
        r.append(d.as_str());
        r.append(" days");
        r
    }
}

/// The expiry time (`notAfter`, in seconds since the Unix epoch) of the
/// DER-encoded X.509 certificate, or none where the bytes do not parse as one.
pub uninterp spec fn der_not_after(der: Seq<u8>) -> Option<i64>;

/// Relies on x509_parser's `parse_x509_certificate`, and on `ASN1Time::timestamp`
/// for the `notAfter` time of the certificate it parsed.
#[verifier::external_body]
fn certificate_not_after(der: &[u8]) -> (r: Option<i64>)
    ensures
        r == der_not_after(der@),
{
    match x509_parser::parse_x509_certificate(der) {
        Ok((_, cert)) => Some(cert.validity().not_after.timestamp()),
        Err(_) => None,
    }
}

/// Status of a server's certificate from its DER bytes, read at `now`.
pub fn certificate_der_status(der: &[u8], now: i64) -> (r: String)
    ensures
        r@ == match der_not_after(der@) {
            Some(t) => expiry_status(t, now),
            None => glyph(false) + " - "@ + "SSL Certificate Missing or Unreadable"@,
        },
{
    match certificate_not_after(der) {
        Some(t) => certificate_status(t, now),
        None => failure_status("SSL Certificate Missing or Unreadable"),
    }
}

/// The serialization of the URL that the text parses to, or none where it does
/// not parse.
pub uninterp spec fn url_serialization(s: Seq<char>) -> Option<Seq<char>>;

/// The serialization of a URL after its port is set, or none where the URL
/// cannot carry a port.
pub uninterp spec fn url_with_port(u: Seq<char>, port: u16) -> Option<Seq<char>>;

/// The host of a URL as text, or none where it has none.
pub uninterp spec fn url_host(u: Seq<char>) -> Option<Seq<char>>;

/// Relies on `url::Url::parse`, and on the serialization of the URL it returns.
#[verifier::external_body]
fn parse_url(s: &str) -> (r: Option<String>)
    ensures
        match r {
            Some(t) => url_serialization(s@) == Some(t@),
            None => url_serialization(s@) is None,
        },
{
    url::Url::parse(s).ok().map(String::from)
}

/// Relies on `url::Url::set_port`, on the URL that `u` serializes.
#[verifier::external_body]
fn set_url_port(u: &str, port: u16) -> (r: Option<String>)
    ensures
        match r {
            Some(t) => url_with_port(u@, port) == Some(t@),
            None => url_with_port(u@, port) is None,
        },
{
    let mut url = url::Url::parse(u).ok()?;
    url.set_port(Some(port)).ok()?;
    Some(String::from(url))
}

/// Relies on `url::Url::host_str`, on the URL that `u` serializes.
#[verifier::external_body]
fn host_of_url(u: &str) -> (r: Option<String>)
    ensures
        match r {
            Some(t) => url_host(u@) == Some(t@),
            None => url_host(u@) is None,
        },
{
    url::Url::parse(u).ok()?.host_str().map(String::from)
}

/// The URL a web probe requests: the base URL with its port replaced, or the
/// base URL as parsed where it cannot carry a port; none where it does not parse.
pub open spec fn request_url_text(base: Seq<char>, port: u16) -> Option<Seq<char>> {
    match url_serialization(base) {
        None => None,
        Some(t) => Some(
            match url_with_port(t, port) {
                Some(v) => v,
                None => t,
            },
        ),
    }
}

/// Builds the URL that a web probe requests.
pub fn request_url(base: &str, port: u16) -> (r: Option<String>)
    ensures
        match r {
            Some(t) => request_url_text(base@, port) == Some(t@),
            None => request_url_text(base@, port) is None,
        },
{
    match parse_url(base) {
        None => None,
        Some(t) => match set_url_port(t.as_str(), port) {
            Some(v) => Some(v),
            None => Some(t),
        },
    }
}

/// The host whose certificate is inspected: that of the parsed base URL.
pub open spec fn certificate_host_text(base: Seq<char>) -> Option<Seq<char>> {
    match url_serialization(base) {
        None => None,
        Some(t) => url_host(t),
    }
}

/// Finds the host whose certificate is inspected, or the status that reports
/// an unusable URL.
pub fn certificate_host(base: &str) -> (r: Result<String, String>)
    ensures
        match r {
            Ok(h) => certificate_host_text(base@) == Some(h@),
            Err(e) => certificate_host_text(base@) is None && e@ == glyph(false) + " - "@ + "Invalid URL"@,
        },
{
    match parse_url(base) {
        None => Err(failure_status("Invalid URL")),
        Some(t) => match host_of_url(t.as_str()) {
            Some(h) => Ok(h),
            None => Err(failure_status("Invalid URL")),
        },
    }
}

/// A reply is judged by its transaction ID alone: it counts as an answer
/// exactly when its first two bytes are those of the query it answers,
/// whatever follows them.
pub proof fn lemma_reply_judged_by_transaction_id(reply: Seq<u8>, domain: Seq<u8>)
    requires
        dns_query_bytes(domain) is Some,
    ensures
        dns_reply_ok(reply) <==> (reply.len() >= 2 && reply.subrange(0, 2)
            == dns_query_bytes(domain)->0.subrange(0, 2)),
{
    let q = dns_query_bytes(domain)->0;
    assert(q[0] == 0x12 && q[1] == 0x34);
    if reply.len() >= 2 {
        if dns_reply_ok(reply) {
            assert(reply.subrange(0, 2) =~= q.subrange(0, 2));
        }
        if reply.subrange(0, 2) == q.subrange(0, 2) {
            assert(reply[0] == reply.subrange(0, 2)[0]);
            assert(reply[1] == reply.subrange(0, 2)[1]);
        }
    }
}

/// What trimming leaves: a prefix of the text that ends in neither a carriage
/// return nor a line feed.
pub proof fn lemma_trim_line_end(s: Seq<char>)
    ensures
        trim_line_end(s).len() <= s.len(),
        trim_line_end(s) == s.subrange(0, trim_line_end(s).len() as int),
        trim_line_end(s).len() > 0 ==> !is_line_end(trim_line_end(s).last()),
    decreases s.len(),
{
    if s.len() > 0 && is_line_end(s.last()) {
        lemma_trim_line_end(s.drop_last());
        assert(s.drop_last().subrange(0, trim_line_end(s).len() as int) =~= s.subrange(
            0,
            trim_line_end(s).len() as int,
        ));
    } else {
        assert(s.subrange(0, s.len() as int) =~= s);
    }
}

/// A greeting that begins with `SSH-` succeeds and shows the banner, which
/// begins with `SSH-` and ends without line breaks; any other greeting, no
/// greeting at all among them, fails with the bare failure mark.
pub proof fn lemma_banner_classification(t: Seq<char>)
    ensures
        t.len() >= 4 && t.subrange(0, 4) == ssh_prefix() ==> {
            let shown = trim_line_end(t);
            &&& banner_status(t) == glyph(true) + " - "@ + shown
            &&& shown.len() >= 4 && shown.subrange(0, 4) == ssh_prefix()
            &&& !is_line_end(shown.last())
        },
        !(t.len() >= 4 && t.subrange(0, 4) == ssh_prefix()) ==> banner_status(t) == glyph(false),
        t.len() == 0 ==> banner_status(t) == glyph(false),
{
    lemma_trim_line_end(t);
    if t.len() >= 4 && t.subrange(0, 4) == ssh_prefix() {
        let shown = trim_line_end(t);
        if shown.len() < 4 {
            assert(t[shown.len() as int] == t.subrange(0, 4)[shown.len() as int]);
            if shown.len() > 0 {
                assert(shown.last() == t.subrange(0, 4)[shown.len() - 1]);
            }
            lemma_trim_stops_at_ordinary(t, shown.len() as int);
        }
        assert(shown.subrange(0, 4) =~= t.subrange(0, 4));
    }
}

proof fn lemma_trim_stops_at_ordinary(s: Seq<char>, i: int)
    requires
        0 <= i < s.len(),
        !is_line_end(s[i]),
    ensures
        trim_line_end(s).len() > i,
    decreases s.len(),
{
    if s.len() > 0 && is_line_end(s.last()) {
        lemma_trim_stops_at_ordinary(s.drop_last(), i);
    }
}

/// A certificate whose expiry is now has expired; one that expires a day
/// from now has one whole day left.
pub proof fn lemma_expiry_boundary(now: i64)
    ensures
        expiry_status(now, now) == glyph(false) + " - Expired"@,
        now <= i64::MAX - SECONDS_PER_DAY ==> expiry_status((now + SECONDS_PER_DAY) as i64, now)
            == glyph(true) + " - Valid For "@ + seq!['1'] + " days"@,
{
    assert(decimal_text(1) =~= seq!['1']);
}

} // verus!
