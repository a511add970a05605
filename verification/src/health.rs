//! Probe outcomes and the per-check health verdict derived from them.

use crate::duration::Interval;
use crate::model::{HealthCheck, HealthCheckMethod, HealthCheckView};
use vstd::prelude::*;

verus! {

/// Current verdict on one health check.
#[derive(Debug, PartialEq, Eq, Structural, Clone, Copy)]
pub enum HealthStatus {
    /// No probe has completed yet.
    Unknown,
    Healthy,
    Unhealthy,
}

/// What the caller observed when it carried out one probe.
#[derive(Debug, Clone)]
pub struct ProbeReply {
    /// Instant at which the probe was sent, in milliseconds.
    pub started_ms: u64,
    /// Instant at which the probe ended, in milliseconds.
    pub finished_ms: u64,
    /// Why no response was received; `None` when one was.
    pub failure: Option<String>,
}

/// Result of one probe.
#[derive(Debug, Clone)]
pub struct HealthCheckResult {
    /// The target answered within the timeout.
    pub success: bool,
    /// Time the probe took, in milliseconds.
    pub latency_ms: u64,
    /// Reason of the failure, when there was one.
    pub error: Option<String>,
    /// Instant at which the probe ended, in milliseconds.
    pub time_ms: u64,
}

/// A [`ProbeReply`] as a mathematical value.
pub struct ProbeReplyView {
    pub started_ms: u64,
    pub finished_ms: u64,
    pub failure: Option<Seq<char>>,
}

/// A [`HealthCheckResult`] as a mathematical value.
pub struct HealthCheckResultView {
    pub success: bool,
    pub latency_ms: u64,
    pub error: Option<Seq<char>>,
    pub time_ms: u64,
}

/// The characters of an optional string.
pub open spec fn text_of(s: Option<String>) -> Option<Seq<char>> {
    match s {
        Some(t) => Some(t@),
        None => None,
    }
}

impl View for ProbeReply {
    type V = ProbeReplyView;

    open spec fn view(&self) -> ProbeReplyView {
        ProbeReplyView {
            started_ms: self.started_ms,
            finished_ms: self.finished_ms,
            failure: text_of(self.failure),
        }
    }
}

impl View for HealthCheckResult {
    type V = HealthCheckResultView;

    open spec fn view(&self) -> HealthCheckResultView {
        HealthCheckResultView {
            success: self.success,
            latency_ms: self.latency_ms,
            error: text_of(self.error),
            time_ms: self.time_ms,
        }
    }
}

/// Error text of a probe that was answered too late.
pub open spec fn timed_out_text() -> Seq<char> {
    "timed out"@
}

impl ProbeReplyView {
    /// Time between sending and ending; zero if the clock went backwards.
    pub open spec fn latency_ms(self) -> u64 {
        if self.finished_ms >= self.started_ms {
            (self.finished_ms - self.started_ms) as u64
        } else {
            0
        }
    }

    /// The verdict on this reply under the given timeout.
    ///
    /// A probe succeeds when a response came and took no longer than the
    /// timeout. A failure keeps its own reason; a late response counts as
    /// timed out.
    pub open spec fn outcome(self, timeout_ms: u64) -> HealthCheckResultView {
        let late = self.latency_ms() > timeout_ms;
        HealthCheckResultView {
            success: self.failure is None && !late,
            latency_ms: self.latency_ms(),
            error: if self.failure is Some {
                self.failure
            } else if late {
                Some(timed_out_text())
            } else {
                None
            },
            time_ms: self.finished_ms,
        }
    }
}

/// Judges one probe from what was observed of it.
pub fn classify(reply: ProbeReply, timeout_ms: u64) -> (r: HealthCheckResult)
    ensures
        r@ == reply@.outcome(timeout_ms),
{
    let latency_ms: u64 = if reply.finished_ms >= reply.started_ms {
        reply.finished_ms - reply.started_ms
    } else {
        0
    };
    let late = latency_ms > timeout_ms;
    let time_ms = reply.finished_ms;
    match reply.failure {
        Some(reason) => HealthCheckResult {
            success: false,
            latency_ms,
            error: Some(reason),
            time_ms,
        },
        None => if late {
            HealthCheckResult {
                success: false,
                latency_ms,
                error: Some("timed out".to_owned()),
                time_ms,
            }
        } else {
            HealthCheckResult { success: true, latency_ms, error: None, time_ms }
        },
    }
}

/// Port of an HTTP probe whose check names none.
pub const DEFAULT_HTTP_PORT: u16 = 80;

/// Port of the connection attempt that stands in for an echo request, for
/// a reachability probe whose check names none.
pub const DEFAULT_PING_PORT: u16 = 80;

/// Longest time a probe is given, however long the interval of its check.
pub const MAX_PROBE_TIMEOUT_MS: u64 = 5_000;

/// A probe for the caller to carry out.
#[derive(Debug, Clone)]
pub struct ProbeRequest {
    pub method: HealthCheckMethod,
    /// Host to contact.
    pub host: String,
    /// Path to request on the host, where the method uses one.
    pub path: Option<String>,
    /// Port to contact.
    pub port: Option<u16>,
    /// Time after which the probe counts as failed, in milliseconds.
    pub timeout_ms: u64,
}

/// A [`ProbeRequest`] as a mathematical value.
pub struct ProbeRequestView {
    pub method: HealthCheckMethod,
    pub host: Seq<char>,
    pub path: Option<Seq<char>>,
    pub port: Option<u16>,
    pub timeout_ms: u64,
}

impl View for ProbeRequest {
    type V = ProbeRequestView;

    open spec fn view(&self) -> ProbeRequestView {
        ProbeRequestView {
            method: self.method,
            host: self.host@,
            path: text_of(self.path),
            port: self.port,
            timeout_ms: self.timeout_ms,
        }
    }
}

/// Timeout of the probes of a check with the given interval: one millisecond
/// less than the interval, and no more than [`MAX_PROBE_TIMEOUT_MS`].
pub open spec fn probe_timeout(interval: Interval) -> u64 {
    let ms = interval.spec_millis();
    if ms == 0 {
        0
    } else if ms - 1 < MAX_PROBE_TIMEOUT_MS {
        (ms - 1) as u64
    } else {
        MAX_PROBE_TIMEOUT_MS
    }
}

/// The HTTP probe of `check` against `url`: a request for the endpoint of
/// the check, sent to the url on the port of the check or else on
/// [`DEFAULT_HTTP_PORT`].
pub open spec fn http_request(url: Seq<char>, check: HealthCheckView) -> ProbeRequestView {
    ProbeRequestView {
        method: HealthCheckMethod::Http,
        host: url,
        path: check.endpoint,
        port: match check.port {
            Some(port) => Some(port),
            None => Some(DEFAULT_HTTP_PORT),
        },
        timeout_ms: probe_timeout(check.interval),
    }
}

/// The reachability probe of `check` against `host`: it asks for no path,
/// and tries the port of the check or else [`DEFAULT_PING_PORT`].
pub open spec fn ping_request(host: Seq<char>, check: HealthCheckView) -> ProbeRequestView {
    ProbeRequestView {
        method: HealthCheckMethod::Ping,
        host,
        path: None,
        port: match check.port {
            Some(port) => Some(port),
            None => Some(DEFAULT_PING_PORT),
        },
        timeout_ms: probe_timeout(check.interval),
    }
}

/// The probe of `check` against `host`, by the method of the check.
pub open spec fn probe_request(host: Seq<char>, check: HealthCheckView) -> ProbeRequestView {
    match check.method {
        HealthCheckMethod::Http => http_request(host, check),
        HealthCheckMethod::Ping => ping_request(host, check),
    }
}

/// Timeout for the probes of a check with the given interval. It is
/// strictly shorter than the interval, so that a hanging probe has ended
/// before the next one is due.
pub fn probe_timeout_ms(interval: Interval) -> (r: u64)
    ensures
        r == probe_timeout(interval),
        interval.wf() ==> r < interval.spec_millis(),
        r <= MAX_PROBE_TIMEOUT_MS,
{
    let ms = interval.to_millis();
    if ms == 0 {
        0
    } else if ms - 1 < MAX_PROBE_TIMEOUT_MS {
        ms - 1
    } else {
        MAX_PROBE_TIMEOUT_MS
    }
}

/// Prepares the HTTP probe of `check` against `url`.
pub fn check_url(url: &str, check: &HealthCheck) -> (r: ProbeRequest)
    ensures
        r@ == http_request(url@, check@),
{
    let path = match &check.endpoint {
        Some(path) => Some(path.clone()),
        None => None,
    };
    let port: u16 = match check.port {
        Some(port) => port,
        None => DEFAULT_HTTP_PORT,
    };
    ProbeRequest {
        method: HealthCheckMethod::Http,
        host: url.to_owned(),
        path,
        port: Some(port),
        timeout_ms: probe_timeout_ms(check.interval),
    }
}

/// Prepares the reachability probe of `check` against `host`.
pub fn check_host(host: &str, check: &HealthCheck) -> (r: ProbeRequest)
    ensures
        r@ == ping_request(host@, check@),
{
    let port: u16 = match check.port {
        Some(port) => port,
        None => DEFAULT_PING_PORT,
    };
    ProbeRequest {
        method: HealthCheckMethod::Ping,
        host: host.to_owned(),
        path: None,
        port: Some(port),
        timeout_ms: probe_timeout_ms(check.interval),
    }
}

impl HealthCheck {
    /// Prepares the probe of this check against `host`.
    pub fn request(&self, host: &str) -> (r: ProbeRequest)
        ensures
            r@ == probe_request(host@, self@),
            self@.wf() ==> r.timeout_ms < self.interval.spec_millis(),
    {
        match self.method {
            HealthCheckMethod::Http => check_url(host, self),
            HealthCheckMethod::Ping => check_host(host, self),
        }
    }
}

/// Number of failures in a row that makes a check unhealthy, unless the
/// caller chooses another: the first failure does.
pub const DEFAULT_FAILURE_THRESHOLD: u64 = 1;

/// State kept for one health check.
#[derive(Debug, PartialEq, Eq, Structural, Clone, Copy)]
pub struct HealthRecord {
    pub status: HealthStatus,
    /// Instant at which the last probe ended, if any has.
    pub last_checked_ms: Option<u64>,
    /// Latency of the last probe, if any has ended.
    pub last_latency_ms: Option<u64>,
    /// Number of failures since the last success.
    pub consecutive_failures: u64,
}

impl HealthRecord {
    /// The record of a check that has not been probed yet.
    pub open spec fn initial() -> HealthRecord {
        HealthRecord {
            status: HealthStatus::Unknown,
            last_checked_ms: None,
            last_latency_ms: None,
            consecutive_failures: 0,
        }
    }

    /// The record after one more probe outcome.
    ///
    /// A success makes the check healthy and clears the failure count. A
    /// failure raises the count, which stops at the largest `u64`, and makes
    /// the check unhealthy once the count has reached `threshold`; until
    /// then the status stays as it was.
    pub open spec fn after(self, outcome: HealthCheckResultView, threshold: u64) -> HealthRecord {
        let failures: u64 = if outcome.success {
            0
        } else if self.consecutive_failures < u64::MAX {
            (self.consecutive_failures + 1) as u64
        } else {
            u64::MAX
        };
        HealthRecord {
            status: if outcome.success {
                HealthStatus::Healthy
            } else if failures >= threshold {
                HealthStatus::Unhealthy
            } else {
                self.status
            },
            last_checked_ms: Some(outcome.time_ms),
            last_latency_ms: Some(outcome.latency_ms),
            consecutive_failures: failures,
        }
    }

    /// The record after a run of probe outcomes, oldest first.
    pub open spec fn after_all(
        self,
        outcomes: Seq<HealthCheckResultView>,
        threshold: u64,
    ) -> HealthRecord
        decreases outcomes.len(),
    {
        if outcomes.len() == 0 {
            self
        } else {
            self.after_all(outcomes.drop_last(), threshold).after(outcomes.last(), threshold)
        }
    }

    /// The record of a check that has not been probed yet.
    pub fn new() -> (r: Self)
        ensures
            r == Self::initial(),
    {
        HealthRecord {
            status: HealthStatus::Unknown,
            last_checked_ms: None,
            last_latency_ms: None,
            consecutive_failures: 0,
        }
    }

    /// Takes one probe outcome into the record.
    pub fn record(&mut self, outcome: &HealthCheckResult, threshold: u64)
        ensures
            *final(self) == old(self).after(outcome@, threshold),
    {
        self.last_checked_ms = Some(outcome.time_ms);
        self.last_latency_ms = Some(outcome.latency_ms);
        if outcome.success {
            self.consecutive_failures = 0;
            self.status = HealthStatus::Healthy;
        } else {
            if self.consecutive_failures < u64::MAX {
                self.consecutive_failures = self.consecutive_failures + 1;
            }
            if self.consecutive_failures >= threshold {
                self.status = HealthStatus::Unhealthy;
            }
        }
    }
}

/// Whether every outcome of the run is a failure.
pub open spec fn all_failed(outcomes: Seq<HealthCheckResultView>) -> bool {
    forall|i: int| 0 <= i < outcomes.len() ==> !(#[trigger] outcomes[i]).success
}

/// A check that is not unhealthy and has no failure on its count becomes
/// unhealthy after exactly `threshold` failures in a row, and not before.
pub proof fn lemma_unhealthy_after_threshold_failures(
    start: HealthRecord,
    outcomes: Seq<HealthCheckResultView>,
    threshold: u64,
)
    requires
        start.consecutive_failures == 0,
        start.status != HealthStatus::Unhealthy,
        threshold >= 1,
        all_failed(outcomes),
    ensures
        start.after_all(outcomes, threshold).status == HealthStatus::Unhealthy <==> outcomes.len()
            >= threshold,
        outcomes.len() < threshold ==> start.after_all(outcomes, threshold).status == start.status,
        start.after_all(outcomes, threshold).consecutive_failures == if outcomes.len() <= u64::MAX {
            outcomes.len()
        } else {
            u64::MAX as nat
        },
    decreases outcomes.len(),
{
    if outcomes.len() > 0 {
        let earlier = outcomes.drop_last();
        assert forall|i: int| 0 <= i < earlier.len() implies !(#[trigger] earlier[i]).success by {
            assert(earlier[i] == outcomes[i]);
        }
        lemma_unhealthy_after_threshold_failures(start, earlier, threshold);
        assert(!outcomes[outcomes.len() - 1].success);
    }
}

/// One success makes a check healthy at once, whatever came before.
pub proof fn lemma_success_restores_health(
    record: HealthRecord,
    outcome: HealthCheckResultView,
    threshold: u64,
)
    requires
        outcome.success,
    ensures
        record.after(outcome, threshold).status == HealthStatus::Healthy,
        record.after(outcome, threshold).consecutive_failures == 0,
{
}

/// A response that took longer than the timeout counts as a failure.
pub proof fn lemma_late_reply_fails(reply: ProbeReplyView, timeout_ms: u64)
    requires
        reply.finished_ms - reply.started_ms > timeout_ms,
    ensures
        !reply.outcome(timeout_ms).success,
        reply.outcome(timeout_ms).error is Some,
{
}

} // verus!
