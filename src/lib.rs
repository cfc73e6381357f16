//! Service status monitoring: which probe each configured item gets, how the
//! bytes a probe gets back are classified, and the status report, whose order
//! follows the configuration whatever order the probes finish in.

mod config;
mod order;
mod probes;
mod report;
mod text;

pub use config::{item_kind, parse_port, ConfigItem, ItemKind, Service, DEFAULT_SSH_PORT, DEFAULT_WEB_PORT};
pub use order::{place_in_slots, render_report};
pub use probes::{
    certificate_der_status, certificate_host, certificate_status, dns_query, dns_reply_status,
    request_url, ssh_banner_status, ssh_banner_text_status, MAX_LABEL_LEN, SECONDS_PER_DAY,
};
pub use report::{
    dns_status, hostmachine_status, item_fragment, plan_probe, print_bool_result_emoji, ssh_status,
    webserver_status, Outcome, Probe, DNS_PORT,
};
pub use text::{decimal, failure_status, glyph_text, same_text, socket_address};
