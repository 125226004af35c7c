//! What a listening process is likely to be, and whether it is safe to share.
use crate::config::{ServiceConfig, ServiceConfigModel};
use crate::text::chars;
use crate::text::chars::{copy_opt, same};
use crate::text::number;
use crate::text::number::to_decimal;
use crate::text::search;
use crate::text::search::has;
use crate::text::std_calls;
use crate::text::std_calls::to_lower;
use vstd::prelude::*;

verus! {

/// A local service that answers on a port.
#[derive(Debug)]
pub struct DetectedService {
    pub name: String,
    pub port: u16,
    pub role: String,
    pub framework: String,
    pub healthcheck_path: String,
    pub process_name: String,
    pub risky: bool,
    pub risk_reason: Option<String>,
    pub http_ready: bool,
    pub score: i32,
}

/// A local service that answers on a port.
pub struct ServiceModel {
    pub name: Seq<char>,
    pub port: u16,
    pub role: Seq<char>,
    pub framework: Seq<char>,
    pub healthcheck_path: Seq<char>,
    pub process_name: Seq<char>,
    pub risky: bool,
    pub risk_reason: Option<Seq<char>>,
    pub http_ready: bool,
    pub score: int,
}

impl View for DetectedService {
    type V = ServiceModel;

    open spec fn view(&self) -> ServiceModel {
        ServiceModel {
            name: self.name@,
            port: self.port,
            role: self.role@,
            framework: self.framework@,
            healthcheck_path: self.healthcheck_path@,
            process_name: self.process_name@,
            risky: self.risky,
            risk_reason: chars::opt_text(self.risk_reason),
            http_ready: self.http_ready,
            score: self.score as int,
        }
    }
}

/// The views of a list of services.
pub open spec fn service_list(services: Seq<DetectedService>) -> Seq<ServiceModel> {
    services.map_values(|s: DetectedService| s@)
}

impl DetectedService {
    /// The service as an entry of the configuration.
    pub fn to_config(&self) -> (r: ServiceConfig)
        ensures
            r@ == (ServiceConfigModel {
                name: self@.name,
                port: self.port,
                role: self@.role,
                framework: self@.framework,
                healthcheck_path: self@.healthcheck_path,
            }),
    {
        ServiceConfig {
            name: self.name.clone(),
            port: self.port,
            role: self.role.clone(),
            framework: self.framework.clone(),
            healthcheck_path: self.healthcheck_path.clone(),
        }
    }
}

/// What the project's directory tells of its services.
#[derive(Debug, Clone, Copy)]
pub struct ProjectFingerprints {
    pub package_json: bool,
}

/// Ports of databases and message brokers.
pub open spec fn is_sensitive_port(port: u16) -> bool {
    port == 5432 || port == 6379 || port == 27017 || port == 3306 || port == 9200 || port == 5672
        || port == 9092
}

/// Whether a lower-case command names a database.
pub open spec fn is_database(command: Seq<char>) -> bool {
    search::contains(command, "postgres"@) || search::contains(command, "redis"@)
        || search::contains(command, "mysql"@) || search::contains(command, "mongo"@)
}

/// The framework and the role that a service is taken to have, and what that adds to its score.
pub struct Kind {
    pub framework: Seq<char>,
    pub role: Seq<char>,
    pub bonus: int,
}

/// The kind of a service, from its lower-case command, its port and whether it speaks HTTP. The
/// first clue that fits counts.
pub open spec fn kind_of(command: Seq<char>, port: u16, http_ready: bool, package_json: bool) -> Kind {
    if search::contains(command, "story"@) || port == 6006 {
        Kind { framework: "storybook"@, role: "docs"@, bonus: 40 }
    } else if search::contains(command, "next"@) || (port == 3000 && package_json) {
        Kind { framework: "nextjs"@, role: "frontend"@, bonus: 45 }
    } else if search::contains(command, "vite"@) || port == 5173 || port == 4173 {
        Kind { framework: "vite"@, role: "frontend"@, bonus: 45 }
    } else if search::contains(command, "nuxt"@) {
        Kind { framework: "nuxt"@, role: "frontend"@, bonus: 45 }
    } else if search::contains(command, "uvicorn"@) || search::contains(command, "gunicorn"@)
        || search::contains(command, "flask"@) {
        Kind { framework: "python-web"@, role: "api"@, bonus: 35 }
    } else if search::contains(command, "rails"@) || search::contains(command, "puma"@) {
        Kind { framework: "rails"@, role: "api"@, bonus: 30 }
    } else if search::contains(command, "node"@) && http_ready && (port == 3000 || port == 3001
        || port == 5173) {
        Kind {
            framework: if package_json {
                "node-web"@
            } else {
                "node"@
            },
            role: "frontend"@,
            bonus: 30,
        }
    } else if http_ready && (port == 8000 || port == 8080 || port == 8787 || port == 9000) {
        Kind { framework: "http"@, role: "api"@, bonus: 20 }
    } else if http_ready {
        Kind { framework: "http"@, role: "app"@, bonus: 10 }
    } else {
        Kind { framework: "unknown"@, role: "unknown"@, bonus: 0 }
    }
}

/// The name that a service is suggested to have.
pub open spec fn name_for(role: Seq<char>, framework: Seq<char>, port: u16, pid: Seq<char>) -> Seq<
    char,
> {
    if role == "frontend"@ || role == "api"@ || role == "docs"@ || role == "webhook"@ {
        role
    } else if role == "app"@ {
        "app-"@ + number::decimal(port as nat)
    } else if framework == "unknown"@ {
        "service-"@ + number::decimal(port as nat) + "-"@ + pid
    } else {
        framework + "-"@ + number::decimal(port as nat)
    }
}

/// Why a service is risky to share. A database process outweighs the rest, and a sensitive port
/// outweighs a service that does not speak HTTP.
pub open spec fn risk_of(command: Seq<char>, port: u16, http_ready: bool) -> Option<Seq<char>> {
    if is_database(command) {
        Some("database process"@)
    } else if is_sensitive_port(port) {
        Some("sensitive data or infrastructure port"@)
    } else if !http_ready {
        Some("service does not look like HTTP"@)
    } else {
        None
    }
}

/// How well a service lends itself to sharing.
pub open spec fn score_of(command: Seq<char>, port: u16, http_ready: bool, bonus: int) -> int {
    50 - (if is_sensitive_port(port) {
        40int
    } else {
        0
    }) - (if http_ready {
        0int
    } else {
        25
    }) + bonus - (if is_database(command) {
        45int
    } else {
        0
    })
}

/// What a listening process is taken to be.
pub open spec fn classified(
    port: u16,
    command: Seq<char>,
    pid: Seq<char>,
    http_ready: bool,
    package_json: bool,
) -> ServiceModel {
    let lower = std_calls::lowercase(command);
    let kind = kind_of(lower, port, http_ready, package_json);
    let risk = risk_of(lower, port, http_ready);
    ServiceModel {
        name: name_for(kind.role, kind.framework, port, pid),
        port,
        role: kind.role,
        framework: kind.framework,
        healthcheck_path: "/"@,
        process_name: command,
        risky: risk is Some,
        risk_reason: risk,
        http_ready,
        score: score_of(lower, port, http_ready, kind.bonus),
    }
}

/// Commands of the operating system that listen but are never shared.
pub open spec fn is_skipped(command: Seq<char>) -> bool {
    let lower = std_calls::lowercase(command);
    lower == "rapportd"@ || lower == "controlcenter"@ || lower == "sharingd"@ || lower
        == "microsoft edge helper"@
}

/// Whether a command is never shared.
pub fn should_skip_command(command: &str) -> (r: bool)
    ensures
        r == is_skipped(command@),
{
    let lower = to_lower(command);
    same(lower.as_str(), "rapportd") || same(lower.as_str(), "controlcenter") || same(
        lower.as_str(),
        "sharingd",
    ) || same(lower.as_str(), "microsoft edge helper")
}

/// Whether a service is offered for sharing: it speaks HTTP and is not risky.
pub fn should_include_service(service: &DetectedService) -> (r: bool)
    ensures
        r == (service.http_ready && !service.risky),
{
    service.http_ready && !service.risky
}

/// The kind of a service: its framework, its role and what that adds to its score.
fn guess_kind(command: &str, port: u16, http_ready: bool, package_json: bool) -> (r: (
    &'static str,
    &'static str,
    i32,
))
    ensures
        kind_of(command@, port, http_ready, package_json) == (Kind {
            framework: r.0@,
            role: r.1@,
            bonus: r.2 as int,
        }),
        0 <= r.2 <= 45,
{
    if has(command, "story") || port == 6006 {
        ("storybook", "docs", 40)
    } else if has(command, "next") || (port == 3000 && package_json) {
        ("nextjs", "frontend", 45)
    } else if has(command, "vite") || port == 5173 || port == 4173 {
        ("vite", "frontend", 45)
    } else if has(command, "nuxt") {
        ("nuxt", "frontend", 45)
    } else if has(command, "uvicorn") || has(command, "gunicorn") || has(command, "flask") {
        ("python-web", "api", 35)
    } else if has(command, "rails") || has(command, "puma") {
        ("rails", "api", 30)
    } else if has(command, "node") && http_ready && (port == 3000 || port == 3001 || port == 5173) {
        (
            if package_json {
                "node-web"
            } else {
                "node"
            },
            "frontend",
            30,
        )
    } else if http_ready && (port == 8000 || port == 8080 || port == 8787 || port == 9000) {
        ("http", "api", 20)
    } else if http_ready {
        ("http", "app", 10)
    } else {
        ("unknown", "unknown", 0)
    }
}

/// Tells what a listening process is taken to be.
pub fn classify_service(
    port: u16,
    command: &str,
    pid: &str,
    http_ready: bool,
    fingerprints: &ProjectFingerprints,
) -> (r: DetectedService)
    ensures
        r@ == classified(port, command@, pid@, http_ready, fingerprints.package_json),
        -60 <= r.score <= 95,
{
    let lower = to_lower(command);
    let mut score: i32 = 50;
    let mut risk_reason: Option<String> = None;
    if port == 5432 || port == 6379 || port == 27017 || port == 3306 || port == 9200 || port
        == 5672 || port == 9092 {
        risk_reason = Some("sensitive data or infrastructure port".to_owned());
        score -= 40;
    }
    if !http_ready {
        if risk_reason.is_none() {
            risk_reason = Some("service does not look like HTTP".to_owned());
        }
        score -= 25;
    }
    let (framework, role, bonus) = guess_kind(
        lower.as_str(),
        port,
        http_ready,
        fingerprints.package_json,
    );
    score += bonus;
    if has(lower.as_str(), "postgres") || has(lower.as_str(), "redis") || has(
        lower.as_str(),
        "mysql",
    ) || has(lower.as_str(), "mongo") {
        risk_reason = Some("database process".to_owned());
        score -= 45;
    }
    let risky = risk_reason.is_some();
    DetectedService {
        name: suggest_name(role, framework, port, pid),
        port,
        role: role.to_owned(),
        framework: framework.to_owned(),
        healthcheck_path: "/".to_owned(),
        process_name: command.to_owned(),
        risky,
        risk_reason,
        http_ready,
        score,
    }
}

/// The name that a service is suggested to have.
pub fn suggest_name(role: &str, framework: &str, port: u16, pid: &str) -> (r: String)
    ensures
        r@ == name_for(role@, framework@, port, pid@),
{
    let digits = to_decimal(port as u64);
    if same(role, "frontend") || same(role, "api") || same(role, "docs") || same(role, "webhook") {
        role.to_owned()
    } else if same(role, "app") {
        "app-".to_owned().concat(digits.as_str())
    } else if same(framework, "unknown") {
        "service-".to_owned().concat(digits.as_str()).concat("-").concat(pid)
    } else {
        framework.to_owned().concat("-").concat(digits.as_str())
    }
}

impl Clone for DetectedService {
    fn clone(&self) -> (r: DetectedService)
        ensures
            r@ == self@,
    {
        DetectedService {
            name: self.name.clone(),
            port: self.port,
            role: self.role.clone(),
            framework: self.framework.clone(),
            healthcheck_path: self.healthcheck_path.clone(),
            process_name: self.process_name.clone(),
            risky: self.risky,
            risk_reason: copy_opt(&self.risk_reason),
            http_ready: self.http_ready,
            score: self.score,
        }
    }
}

/// A service is marked risky exactly if there is a reason for it, and there is none exactly if it
/// speaks HTTP, is no database and is on no sensitive port.
pub proof fn risk_has_a_reason(
    port: u16,
    command: Seq<char>,
    pid: Seq<char>,
    http_ready: bool,
    package_json: bool,
)
    ensures
        ({
            let s = classified(port, command, pid, http_ready, package_json);
            &&& s.risky <==> s.risk_reason is Some
            &&& !s.risky <==> http_ready && !is_sensitive_port(port) && !is_database(
                std_calls::lowercase(command),
            )
        }),
{
}

} // verus!
