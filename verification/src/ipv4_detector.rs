//! Redaction of literal IPv4 addresses.

use vstd::prelude::*;
use crate::module::{register_module, ModuleInfo, ModuleRegistry, Stage};
use crate::pattern::{redact_with, redacted};

verus! {

pub const MODULE_NAME: &'static str = "IPv4Detector";

pub const MODULE_VERSION: &'static str = "1.0.0";

/// Four octets from 0 to 255, joined by dots.
pub const IPV4_PATTERN: &'static str =
    r"(25[0-5]|2[0-4][0-9]|[01]?[0-9][0-9]?)\.(25[0-5]|2[0-4][0-9]|[01]?[0-9][0-9]?)\.(25[0-5]|2[0-4][0-9]|[01]?[0-9][0-9]?)\.(25[0-5]|2[0-4][0-9]|[01]?[0-9][0-9]?)";

/// The body with every IPv4 address redacted.
pub open spec fn redacted_ipv4(body: Seq<char>) -> Seq<char> {
    redacted(IPV4_PATTERN@, body)
}

/// A redactor for IPv4 addresses.
pub struct IPv4Detector {
    pub pattern: String,
}

impl IPv4Detector {
    pub fn new() -> (out: IPv4Detector)
        ensures
            out.pattern@ == IPV4_PATTERN@,
    {
        IPv4Detector { pattern: IPV4_PATTERN.to_owned() }
    }

    /// Replaces every match of the detector's pattern by the marker.
    pub fn redact_ipv4(&self, content: &mut String)
        ensures
            final(content)@ == redacted(self.pattern@, old(content)@),
    {
        redact_with(self.pattern.as_str(), content);
    }
}

/// Replaces every IPv4 address in `content` by the marker.
pub fn redact_ipv4_in_content(content: &mut String)
    ensures
        final(content)@ == redacted_ipv4(old(content)@),
{
    let detector: IPv4Detector = IPv4Detector::new();
    detector.redact_ipv4(content);
}

/// Enters the IPv4 stage into `registry` under `MODULE_NAME`.
pub fn register(registry: &mut ModuleRegistry)
    ensures
        final(registry)@ == crate::module::registered(
            old(registry)@,
            (crate::module::ModuleView {
                name: MODULE_NAME@,
                version: MODULE_VERSION@,
                stage: Stage::RedactIpv4,
            }),
        ),
{
    register_module(
        registry,
        ModuleInfo {
            name: MODULE_NAME.to_owned(),
            version: MODULE_VERSION.to_owned(),
            stage: Stage::RedactIpv4,
        },
    );
}

} // verus!
