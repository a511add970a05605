//! The monitored topology: backends and the health checks defined on them.

use crate::duration::{Interval, default_interval};
use crate::health::text_of;
use vstd::prelude::*;

verus! {

/// How a health check probes its target.
#[derive(Debug, PartialEq, Eq, Structural, Clone, Copy)]
pub enum HealthCheckMethod {
    /// A request to a path on the host.
    Http,
    /// A reachability probe of the host alone.
    Ping,
}

/// One probe definition of a backend.
#[derive(Debug, Clone)]
pub struct HealthCheck {
    pub method: HealthCheckMethod,
    /// Path to request; needed by `Http`.
    pub endpoint: Option<String>,
    /// Time between two probes.
    pub interval: Interval,
    /// Port to contact; the method decides when there is none.
    pub port: Option<u16>,
}

/// A monitored target with its health checks, each scheduled on its own.
#[derive(Debug, Clone)]
pub struct Backend {
    pub name: Option<String>,
    /// Host name or address.
    pub host: String,
    pub health: Vec<HealthCheck>,
}

/// Everything the engine monitors.
#[derive(Debug, Clone)]
pub struct Configuration {
    pub backends: Vec<Backend>,
}

/// A [`HealthCheck`] as a mathematical value.
pub struct HealthCheckView {
    pub method: HealthCheckMethod,
    pub endpoint: Option<Seq<char>>,
    pub interval: Interval,
    pub port: Option<u16>,
}

/// A [`Backend`] as a mathematical value.
pub struct BackendView {
    pub name: Option<Seq<char>>,
    pub host: Seq<char>,
    pub health: Seq<HealthCheckView>,
}

impl View for HealthCheck {
    type V = HealthCheckView;

    open spec fn view(&self) -> HealthCheckView {
        HealthCheckView {
            method: self.method,
            endpoint: text_of(self.endpoint),
            interval: self.interval,
            port: self.port,
        }
    }
}

impl View for Backend {
    type V = BackendView;

    open spec fn view(&self) -> BackendView {
        BackendView {
            name: text_of(self.name),
            host: self.host@,
            health: self.health@.map_values(|c: HealthCheck| c@),
        }
    }
}

impl View for Configuration {
    type V = Seq<BackendView>;

    open spec fn view(&self) -> Seq<BackendView> {
        self.backends@.map_values(|b: Backend| b@)
    }
}

impl HealthCheckView {
    /// A check can be scheduled when its interval is positive and its method
    /// has the fields it needs.
    pub open spec fn wf(self) -> bool {
        self.interval.wf() && (self.method == HealthCheckMethod::Http ==> self.endpoint is Some)
    }
}

impl BackendView {
    /// Every check of the backend can be scheduled.
    pub open spec fn wf(self) -> bool {
        forall|i: int| 0 <= i < self.health.len() ==> (#[trigger] self.health[i]).wf()
    }
}

/// Every check of every backend can be scheduled.
pub open spec fn all_schedulable(backends: Seq<BackendView>) -> bool {
    forall|i: int| 0 <= i < backends.len() ==> (#[trigger] backends[i]).wf()
}

impl HealthCheck {
    /// A check with the given fields. Without an interval of its own it is
    /// probed every thirty seconds.
    pub fn new(
        method: HealthCheckMethod,
        endpoint: Option<String>,
        interval: Option<Interval>,
        port: Option<u16>,
    ) -> (r: HealthCheck)
        ensures
            r@ == (HealthCheckView {
                method,
                endpoint: text_of(endpoint),
                interval: match interval {
                    Some(given) => given,
                    None => default_interval(),
                },
                port,
            }),
    {
        let interval = match interval {
            Some(given) => given,
            None => Interval::default(),
        };
        HealthCheck { method, endpoint, interval, port }
    }

    /// Whether this check can be scheduled.
    pub fn is_valid(&self) -> (r: bool)
        ensures
            r == self@.wf(),
    {
        self.interval.value > 0 && (match self.method {
            HealthCheckMethod::Http => self.endpoint.is_some(),
            HealthCheckMethod::Ping => true,
        })
    }
}

impl Backend {
    /// Whether every check of this backend can be scheduled.
    pub fn is_valid(&self) -> (r: bool)
        ensures
            r == self@.wf(),
    {
        let mut i: usize = 0;
        while i < self.health.len()
            invariant
                i <= self.health@.len(),
                forall|j: int| 0 <= j < i ==> (#[trigger] self@.health[j]).wf(),
            decreases self.health@.len() - i,
        {
            if !self.health[i].is_valid() {
                assert(!self@.health[i as int].wf());
                return false;
            }
            i = i + 1;
        }
        true
    }
}

impl Configuration {
    /// Whether every check of every backend can be scheduled.
    pub fn is_valid(&self) -> (r: bool)
        ensures
            r == all_schedulable(self@),
    {
        let mut i: usize = 0;
        while i < self.backends.len()
            invariant
                i <= self.backends@.len(),
                forall|j: int| 0 <= j < i ==> (#[trigger] self@[j]).wf(),
            decreases self.backends@.len() - i,
        {
            if !self.backends[i].is_valid() {
                assert(!self@[i as int].wf());
                return false;
            }
            i = i + 1;
        }
        true
    }
}

} // verus!
