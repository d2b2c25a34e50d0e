//! The auxiliary process's health report.
//!
//! The process itself is spawned and polled outside the library; this
//! is the shape of its health answer and the readiness rule.

use vstd::prelude::*;
use vstd::string::StringSliceAdditionalSpecFns;

use crate::textscan::eq_bytes;
use crate::weather::string_bytes;

verus! {

/// The health endpoint's answer.
#[derive(Debug, Clone)]
pub struct SidecarHealth {
    pub status: String,
    pub version: Option<String>,
    pub trading_mode: Option<String>,
}

impl SidecarHealth {
    /// Whether the report counts as healthy: the status reads `ok`.
    pub fn is_healthy(&self) -> (r: bool)
        ensures
            r == (string_bytes(self.status) == "ok".spec_bytes()),
    {
        let s = self.status.as_str();
        proof {
            assert(s.spec_bytes() == string_bytes(self.status));
        }
        eq_bytes(s.as_bytes(), "ok".as_bytes())
    }
}

} // verus!
