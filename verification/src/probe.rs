//! Periodic Protect-path probe.
//!
//! Without this, a broken webhook path (DNS, routing, expired certificate,
//! firewall change) is only discovered during an actual fire. The probe
//! verifies DNS resolution, TCP reachability, and TLS certificate validity
//! against the Protect host on an interval, and feeds `/readyz`.
//!
//! Limitation: a plain GET cannot verify the API key or webhook ID without
//! triggering the alarm, so those are only fully validated by a real delivery.
//! The probe still catches the overwhelmingly common failure modes (network,
//! DNS, TLS, host down).

use vstd::prelude::*;

use crate::clock::Duration;
use crate::weburl::Url;

verus! {

pub struct ProbeConfig {
    pub url: Url,
    pub interval: Duration,
    pub timeout: Duration,
}

/// What came of a probe.
#[derive(Debug)]
pub enum ProbeReply {
    /// Any HTTP response over a validated connection: Protect may well return
    /// 4xx to an unauthenticated GET of `/`, which still proves DNS, route and
    /// TLS.
    Answered,
    /// No response; the error, without the URL.
    Failed(String),
    /// No response in time; the timeout in seconds.
    TimedOut(String),
}

/// Judge a probe.
pub fn probe_outcome(reply: ProbeReply) -> (r: Result<(), String>)
    ensures
        match reply {
            ProbeReply::Answered => r is Ok,
            ProbeReply::Failed(e) => r is Err && r->Err_0@ == "Protect probe failed: "@ + e@,
            ProbeReply::TimedOut(secs) => r is Err && r->Err_0@ == "Protect probe timed out after "@
                + secs@ + "s"@,
        },
{
    match reply {
        ProbeReply::Answered => Ok(()),
        ProbeReply::Failed(e) => {
            let mut message = "Protect probe failed: ".to_owned();
            message.append(e.as_str());
            Err(message)
        },
        ProbeReply::TimedOut(secs) => {
            let mut message = "Protect probe timed out after ".to_owned();
            message.append(secs.as_str());
            message.append("s");
            Err(message)
        },
    }
}

} // verus!
