//! The records the service works on: configured endpoints and the status
//! observations of their checks.
use vstd::prelude::*;

verus! {

/// A probe target: the series its observations go to, the url to request, and
/// the number of ticks between two checks.
#[derive(Clone, Debug, PartialEq)]
pub struct Endpoint {
    pub series: String,
    pub url: String,
    pub interval: u16,
}

/// The endpoints to poll, as configured.
#[derive(Debug, PartialEq)]
pub struct Config {
    pub endpoints: Vec<Endpoint>,
}

/// A configuration whose every endpoint has a positive interval.
pub struct ValidatedConfig(Config);

/// Why a configuration was refused.
#[derive(Debug, PartialEq, Eq, Structural)]
pub enum ConfigError {
    /// The endpoint at this index has an interval of zero ticks.
    ZeroInterval(usize),
}

/// An endpoint may enter the schedule: it fires every `interval` ticks.
pub open spec fn valid_endpoint(e: Endpoint) -> bool {
    e.interval > 0
}

/// Every endpoint of `es` may enter the schedule.
pub open spec fn all_valid(es: Seq<Endpoint>) -> bool {
    forall|i: int| 0 <= i < es.len() ==> valid_endpoint(#[trigger] es[i])
}

impl Config {
    /// Accepts the configuration when every interval is positive; otherwise
    /// names the first endpoint whose interval is zero.
    pub fn validate(self) -> (r: Result<ValidatedConfig, ConfigError>)
        ensures
            r is Ok <==> all_valid(self.endpoints@),
            r matches Ok(v) ==> v.config() == self,
            r matches Err(ConfigError::ZeroInterval(i)) ==> {
                &&& i < self.endpoints@.len()
                &&& !valid_endpoint(self.endpoints@[i as int])
                &&& forall|j: int| 0 <= j < i ==> valid_endpoint(#[trigger] self.endpoints@[j])
            },
    {
        let mut i: usize = 0;
        while i < self.endpoints.len()
            invariant
                i <= self.endpoints@.len(),
                forall|j: int| 0 <= j < i ==> valid_endpoint(#[trigger] self.endpoints@[j]),
            decreases self.endpoints@.len() - i,
        {
            if self.endpoints[i].interval == 0 {
                return Err(ConfigError::ZeroInterval(i));
            }
            i = i + 1;
        }
        Ok(ValidatedConfig(self))
    }
}

impl ValidatedConfig {
    /// The configuration that was accepted.
    pub closed spec fn config(&self) -> Config {
        self.0
    }

    /// The accepted endpoints, each with a positive interval.
    pub fn into_endpoints(self) -> (r: Vec<Endpoint>)
        ensures
            r == self.config().endpoints,
    {
        self.0.endpoints
    }
}

/// A stored observation of one check.
#[derive(Debug, PartialEq)]
pub struct Status {
    pub id: String,
    pub series: String,
    pub status: u16,
    /// Seconds since the Unix epoch at which the check started.
    pub start: u64,
    pub duration_ms: u64,
}

/// An observation of one check, before the store gives it an id.
#[derive(Debug, PartialEq)]
pub struct CreateStatus {
    pub series: String,
    pub status: u16,
    /// Seconds since the Unix epoch at which the check started.
    pub start: u64,
    pub duration_ms: u64,
}

/// A stored check definition.
#[derive(Debug, PartialEq)]
pub struct HealthCheck {
    pub id: String,
    pub frequency: u32,
    pub url: String,
}

} // verus!
