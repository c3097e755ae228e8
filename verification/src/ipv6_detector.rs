//! Redaction of literal IPv6 addresses.

use vstd::prelude::*;
use crate::module::{register_module, ModuleInfo, ModuleRegistry, Stage};
use crate::pattern::{redact_with, redacted};

verus! {

pub const MODULE_NAME: &'static str = "IPv6Detector";

pub const MODULE_VERSION: &'static str = "1.0.0";

/// Eight groups of up to four hexadecimal digits joined by colons, or a
/// shorter form in which `::` stands for a run of zero groups.
pub const IPV6_PATTERN: &'static str =
    r"(?i)(([0-9a-f]{1,4}:){7}[0-9a-f]{1,4}|::([0-9a-f]{1,4}:){0,6}[0-9a-f]{1,4}|([0-9a-f]{1,4}:){1,6}:[0-9a-f]{1,4}|([0-9a-f]{1,4}:){1,5}(:[0-9a-f]{1,4}){1,2}|([0-9a-f]{1,4}:){1,4}(:[0-9a-f]{1,4}){1,3}|([0-9a-f]{1,4}:){1,3}(:[0-9a-f]{1,4}){1,4}|([0-9a-f]{1,4}:){1,2}(:[0-9a-f]{1,4}){1,5}|[0-9a-f]{1,4}:((:[0-9a-f]{1,4}){1,6})|:((:[0-9a-f]{1,4}){1,7}|:))";

/// The body with every IPv6 address redacted.
pub open spec fn redacted_ipv6(body: Seq<char>) -> Seq<char> {
    redacted(IPV6_PATTERN@, body)
}

/// A redactor for IPv6 addresses.
pub struct IPv6Detector {
    pub pattern: String,
}

impl IPv6Detector {
    pub fn new() -> (out: IPv6Detector)
        ensures
            out.pattern@ == IPV6_PATTERN@,
    {
        IPv6Detector { pattern: IPV6_PATTERN.to_owned() }
    }

    /// Replaces every match of the detector's pattern by the marker.
    pub fn redact_ipv6(&self, content: &mut String)
        ensures
            final(content)@ == redacted(self.pattern@, old(content)@),
    {
        redact_with(self.pattern.as_str(), content);
    }
}

/// Replaces every IPv6 address in `content` by the marker.
pub fn redact_ipv6_in_content(content: &mut String)
    ensures
        final(content)@ == redacted_ipv6(old(content)@),
{
    let detector: IPv6Detector = IPv6Detector::new();
    detector.redact_ipv6(content);
}

/// Enters the IPv6 stage into `registry` under `MODULE_NAME`.
pub fn register(registry: &mut ModuleRegistry)
    ensures
        final(registry)@ == crate::module::registered(
            old(registry)@,
            (crate::module::ModuleView {
                name: MODULE_NAME@,
                version: MODULE_VERSION@,
                stage: Stage::RedactIpv6,
            }),
        ),
{
    register_module(
        registry,
        ModuleInfo {
            name: MODULE_NAME.to_owned(),
            version: MODULE_VERSION.to_owned(),
            stage: Stage::RedactIpv6,
        },
    );
}

} // verus!
