//! The console's configuration: managed services and the allowlist of units.

use vstd::prelude::*;

verus! {

broadcast use vstd::string::group_string_axioms;

/// What a managed service is.
#[derive(Debug, Clone, Copy, PartialEq, Eq, Structural)]
pub enum ServiceKind {
    Bft,
    Execution,
    Rpc,
    Other,
}

/// The lowercase name of a kind.
pub open spec fn kind_name_of(k: ServiceKind) -> Seq<char> {
    match k {
        ServiceKind::Bft => "bft"@,
        ServiceKind::Execution => "execution"@,
        ServiceKind::Rpc => "rpc"@,
        ServiceKind::Other => "other"@,
    }
}

impl ServiceKind {
    /// The lowercase name of the kind, as the status API reports it.
    pub fn name(&self) -> (s: String)
        ensures
            s@ == kind_name_of(*self),
    {
        match self {
            ServiceKind::Bft => String::from_str("bft"),
            ServiceKind::Execution => String::from_str("execution"),
            ServiceKind::Rpc => String::from_str("rpc"),
            ServiceKind::Other => String::from_str("other"),
        }
    }
}

/// One managed service.
pub struct ServiceCfg {
    pub name: String,
    pub unit: String,
    pub binary: String,
    pub kind: ServiceKind,
    pub github_repo: Option<String>,
}

/// The console's settings.
pub struct WebConfig {
    pub listen_addr: String,
    pub db_path: String,
    pub scrape_interval_ms: u64,
    pub metrics_url: String,
    pub dev_insecure_cookies: bool,
    pub services: Vec<ServiceCfg>,
}

fn service(name: &str, unit: &str, binary: &str, kind: ServiceKind, repo: Option<&str>) -> (s: ServiceCfg)
    ensures
        s.name@ == name@,
        s.unit@ == unit@,
        s.binary@ == binary@,
        s.kind == kind,
        repo is None ==> s.github_repo is None,
        repo matches Some(r) ==> s.github_repo matches Some(g) && g@ == r@,
{
    ServiceCfg {
        name: String::from_str(name),
        unit: String::from_str(unit),
        binary: String::from_str(binary),
        kind,
        github_repo: match repo {
            Some(r) => Some(String::from_str(r)),
            None => None,
        },
    }
}

impl Default for WebConfig {
    /// The layout of a standard node host: listen on localhost, three
    /// managed services (BFT, execution, RPC).
    fn default() -> (c: Self)
        ensures
            c.listen_addr@ == "127.0.0.1:8088"@,
            c.db_path@ == "sentinel-web.sqlite"@,
            c.scrape_interval_ms == 5000,
            c.metrics_url@ == "http://localhost:8889/metrics"@,
            !c.dev_insecure_cookies,
            c.services@.len() == 3,
            c.services@[0].name@ == "BFT"@,
            c.services@[0].unit@ == "monad-bft.service"@,
            c.services@[0].binary@ == "/usr/local/bin/monad-node"@,
            c.services@[0].kind == ServiceKind::Bft,
            c.services@[0].github_repo matches Some(r) && r@ == "category-labs/monad-bft"@,
            c.services@[1].name@ == "Execution"@,
            c.services@[1].unit@ == "monad-execution.service"@,
            c.services@[1].binary@ == "/usr/local/bin/monad"@,
            c.services@[1].kind == ServiceKind::Execution,
            c.services@[1].github_repo matches Some(r) && r@ == "category-labs/monad"@,
            c.services@[2].name@ == "RPC"@,
            c.services@[2].unit@ == "monad-rpc.service"@,
            c.services@[2].binary@ == "/usr/local/bin/monad-rpc"@,
            c.services@[2].kind == ServiceKind::Rpc,
            c.services@[2].github_repo is None,
    {
        let mut services: Vec<ServiceCfg> = Vec::new();
        services.push(service("BFT", "monad-bft.service", "/usr/local/bin/monad-node",
            ServiceKind::Bft, Some("category-labs/monad-bft")));
        services.push(service("Execution", "monad-execution.service", "/usr/local/bin/monad",
            ServiceKind::Execution, Some("category-labs/monad")));
        services.push(service("RPC", "monad-rpc.service", "/usr/local/bin/monad-rpc",
            ServiceKind::Rpc, None));
        WebConfig {
            listen_addr: String::from_str("127.0.0.1:8088"),
            db_path: String::from_str("sentinel-web.sqlite"),
            scrape_interval_ms: 5000,
            metrics_url: String::from_str("http://localhost:8889/metrics"),
            dev_insecure_cookies: false,
            services,
        }
    }
}

/// The units of the given services, in order.
pub open spec fn units_of(services: Seq<ServiceCfg>) -> Seq<Seq<char>> {
    services.map_values(|s: ServiceCfg| s.unit@)
}

/// The unit is on the allowlist.
pub open spec fn is_allowed(allowed: Seq<String>, unit: Seq<char>) -> bool {
    exists|i: int| 0 <= i < allowed.len() && #[trigger] allowed[i]@ == unit
}

impl WebConfig {
    /// Units the operations layer is permitted to touch: the allowlist's
    /// source of truth.
    pub fn allowed_units(&self) -> (units: Vec<String>)
        ensures
            units@.len() == self.services@.len(),
            forall|i: int| 0 <= i < units@.len() ==> #[trigger] units@[i]@ == self.services@[i].unit@,
    {
        let mut units: Vec<String> = Vec::new();
        let mut i: usize = 0;
        while i < self.services.len()
            invariant
                0 <= i <= self.services@.len(),
                units@.len() == i,
                forall|j: int| 0 <= j < i ==> #[trigger] units@[j]@ == self.services@[j].unit@,
            decreases self.services@.len() - i,
        {
            units.push(self.services[i].unit.clone());
            i += 1;
        }
        units
    }
}

/// Whether `unit` is on the allowlist.
pub fn contains_unit(allowed: &Vec<String>, unit: &str) -> (b: bool)
    ensures
        b == is_allowed(allowed@, unit@),
{
    let u = String::from_str(unit);
    let mut i: usize = 0;
    while i < allowed.len()
        invariant
            0 <= i <= allowed@.len(),
            u@ == unit@,
            forall|j: int| 0 <= j < i ==> #[trigger] allowed@[j]@ != unit@,
        decreases allowed@.len() - i,
    {
        if allowed[i] == u {
            return true;
        }
        i += 1;
    }
    false
}

} // verus!
