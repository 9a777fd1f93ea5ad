//! The read endpoints: service status, the parameters of the metrics and
//! logs queries, and the log lines of an allowed unit.

use vstd::prelude::*;
use crate::web::config::{contains_unit, is_allowed, kind_name_of, ServiceCfg};
use crate::web::probe::{opt_text, LogReader, ServiceProbe, VersionProbe};

verus! {

broadcast use vstd::string::group_string_axioms;

/// One service in the status reply.
pub struct ServiceStatus {
    pub name: String,
    pub unit: String,
    pub kind: String,
    pub active: bool,
    pub version: Option<String>,
}

/// Query of the metrics endpoint.
pub struct MetricsParams {
    pub name: String,
    pub window: String,
}

/// Query of the logs endpoint.
pub struct LogsParams {
    pub unit: String,
    pub lines: Option<usize>,
}

/// The length in milliseconds of a metrics window name: `1h`, `24h`, `7d`.
pub open spec fn window_length(window: Seq<char>) -> Option<i64> {
    if window == seq!['1', 'h'] {
        Some(3_600_000)
    } else if window == seq!['2', '4', 'h'] {
        Some(86_400_000)
    } else if window == seq!['7', 'd'] {
        Some(604_800_000)
    } else {
        None
    }
}

/// The window of a metrics query, or 400 for an unknown window name.
pub fn metrics_window_ms(window: &str) -> (r: Result<i64, u16>)
    ensures
        window_length(window@) matches Some(ms) ==> r == Ok::<i64, u16>(ms),
        window_length(window@) is None ==> r == Err::<i64, u16>(400),
{
    let w = String::from_str(window);
    let h1 = String::from_str("1h");
    let h24 = String::from_str("24h");
    let d7 = String::from_str("7d");
    proof {
        reveal_strlit("1h");
        reveal_strlit("24h");
        reveal_strlit("7d");
    }
    assert(h1@ =~= seq!['1', 'h']);
    assert(h24@ =~= seq!['2', '4', 'h']);
    assert(d7@ =~= seq!['7', 'd']);
    if w == h1 {
        Ok(3_600_000)
    } else if w == h24 {
        Ok(86_400_000)
    } else if w == d7 {
        Ok(604_800_000)
    } else {
        Err(400)
    }
}

/// Default number of log lines.
pub const DEFAULT_LOG_LINES: usize = 100;

/// Most log lines one query returns.
pub const MAX_LOG_LINES: usize = 1000;

/// The number of log lines to read for a logs query: the requested number
/// (100 where none is given), at most 1000; or 400 for a unit that is not on
/// the allowlist.
pub fn logs_lines(allowed: &Vec<String>, params: &LogsParams) -> (r: Result<usize, u16>)
    ensures
        !is_allowed(allowed@, params.unit@) ==> r == Err::<usize, u16>(400),
        is_allowed(allowed@, params.unit@) ==> r == Ok::<usize, u16>(match params.lines {
            Some(n) => if n > MAX_LOG_LINES { MAX_LOG_LINES } else { n },
            None => DEFAULT_LOG_LINES,
        }),
{
    if !contains_unit(allowed, params.unit.as_str()) {
        return Err(400);
    }
    match params.lines {
        Some(n) => if n > MAX_LOG_LINES { Ok(MAX_LOG_LINES) } else { Ok(n) },
        None => Ok(DEFAULT_LOG_LINES),
    }
}

/// The status of service `s` for what the probes reported of it.
pub open spec fn status_fits(st: ServiceStatus, s: ServiceCfg, active: bool, version: Option<String>) -> bool {
    &&& st.name@ == s.name@
    &&& st.unit@ == s.unit@
    &&& st.kind@ == kind_name_of(s.kind)
    &&& st.active == active
    &&& opt_text(st.version) == opt_text(version)
}

/// The status of each managed service, in configuration order, given what
/// the probes reported: `active[i]` for the unit of service `i` and
/// `versions[i]` for its binary.
pub fn status_of(services: &Vec<ServiceCfg>, active: &Vec<bool>, versions: &Vec<Option<String>>) -> (out: Vec<ServiceStatus>)
    requires
        active@.len() == services@.len(),
        versions@.len() == services@.len(),
    ensures
        out@.len() == services@.len(),
        forall|i: int| 0 <= i < services@.len()
            ==> status_fits(#[trigger] out@[i], services@[i], active@[i], versions@[i]),
{
    let mut out: Vec<ServiceStatus> = Vec::new();
    let mut i: usize = 0;
    while i < services.len()
        invariant
            active@.len() == services@.len(),
            versions@.len() == services@.len(),
            0 <= i <= services@.len(),
            out@.len() == i,
            forall|j: int| 0 <= j < i ==> status_fits(#[trigger] out@[j], services@[j], active@[j], versions@[j]),
        decreases services@.len() - i,
    {
        let s = &services[i];
        let version = match &versions[i] {
            Some(v) => Some(v.clone()),
            None => None,
        };
        out.push(ServiceStatus {
            name: s.name.clone(),
            unit: s.unit.clone(),
            kind: s.kind.name(),
            active: active[i],
            version,
        });
        i += 1;
    }
    out
}

/// The status of each managed service, in configuration order: its name,
/// unit and kind from the configuration, whether it is active as the service
/// probe replied about its unit, and its version as the version probe replied
/// about its binary.
pub fn get_status<S: ServiceProbe, V: VersionProbe>(services: &Vec<ServiceCfg>, svc: &S, ver: &V) -> (out: Vec<ServiceStatus>)
    ensures
        out@.len() == services@.len(),
        forall|i: int| 0 <= i < services@.len() ==> {
            &&& (#[trigger] out@[i]).name@ == services@[i].name@
            &&& out@[i].unit@ == services@[i].unit@
            &&& out@[i].kind@ == kind_name_of(services@[i].kind)
            &&& svc.reports_active(services@[i].unit@, out@[i].active)
            &&& ver.reports_version(services@[i].binary@, opt_text(out@[i].version))
        },
{
    let mut active: Vec<bool> = Vec::new();
    let mut versions: Vec<Option<String>> = Vec::new();
    let mut i: usize = 0;
    while i < services.len()
        invariant
            0 <= i <= services@.len(),
            active@.len() == i,
            versions@.len() == i,
            forall|j: int| 0 <= j < i ==> svc.reports_active(services@[j].unit@, #[trigger] active@[j]),
            forall|j: int| 0 <= j < i ==> ver.reports_version(services@[j].binary@, opt_text(#[trigger] versions@[j])),
        decreases services@.len() - i,
    {
        active.push(svc.is_active(services[i].unit.as_str()));
        versions.push(ver.version(services[i].binary.as_str()));
        i += 1;
    }
    let out = status_of(services, &active, &versions);
    assert forall|i: int| 0 <= i < services@.len() implies {
        &&& svc.reports_active(services@[i].unit@, out@[i].active)
        &&& ver.reports_version(services@[i].binary@, opt_text(out@[i].version))
    } by {
        assert(status_fits(out@[i], services@[i], active@[i], versions@[i]));
        assert(svc.reports_active(services@[i].unit@, active@[i]));
        assert(ver.reports_version(services@[i].binary@, opt_text(versions@[i])));
    }
    out
}

/// What a logs query asks the reader for: the unit and the number of lines
/// (the requested number, 100 where none is given, at most 1000); or 400 for
/// a unit that is not on the allowlist.
pub fn logs_request(allowed: &Vec<String>, params: &LogsParams) -> (r: Result<(String, usize), u16>)
    ensures
        !is_allowed(allowed@, params.unit@) ==> r == Err::<(String, usize), u16>(400),
        is_allowed(allowed@, params.unit@) ==> (r matches Ok((unit, n)) && unit@ == params.unit@
            && n == match params.lines {
                Some(k) => if k > MAX_LOG_LINES { MAX_LOG_LINES } else { k },
                None => DEFAULT_LOG_LINES,
            }),
{
    match logs_lines(allowed, params) {
        Err(e) => Err(e),
        Ok(n) => Ok((params.unit.clone(), n)),
    }
}

/// The number of log lines a query asks for: the requested number (100
/// where none is given), at most 1000.
pub open spec fn clamped_lines(lines: Option<usize>) -> usize {
    match lines {
        Some(k) => if k > MAX_LOG_LINES { MAX_LOG_LINES } else { k },
        None => DEFAULT_LOG_LINES,
    }
}

/// The log lines of a logs query: 400 for a unit off the allowlist, and
/// nothing read; otherwise the reader's reply to the request that
/// `logs_request` makes (the query's unit and the clamped number of lines).
pub fn get_logs<L: LogReader>(allowed: &Vec<String>, params: &LogsParams, reader: &L) -> (r: Result<Vec<String>, u16>)
    ensures
        !is_allowed(allowed@, params.unit@) ==> r == Err::<Vec<String>, u16>(400),
        is_allowed(allowed@, params.unit@) ==> (r matches Ok(lines)
            && reader.tails(params.unit@, clamped_lines(params.lines), lines@)),
{
    match logs_request(allowed, params) {
        Err(e) => Err(e),
        Ok((unit, n)) => Ok(reader.tail(unit.as_str(), n)),
    }
}

} // verus!
