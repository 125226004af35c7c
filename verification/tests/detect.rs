use localtoglobal::detect::classify::{
    classify_service, should_include_service, should_skip_command, suggest_name, DetectedService,
    ProjectFingerprints,
};
use localtoglobal::detect::listeners::{
    looks_like_http, parse_listeners, parse_port, report_failure, Listener,
};
use localtoglobal::detect::rank::{rank_services, ProbedListener};
use localtoglobal::detect::table::service_table;

#[test]
fn parses_ports_from_lsof_bindings() {
    assert_eq!(parse_port("*:5173"), Some(5173));
    assert_eq!(parse_port("127.0.0.1:3000"), Some(3000));
    assert_eq!(parse_port("[::1]:8000"), Some(8000));
    assert_eq!(parse_port("127.0.0.1:3000->127.0.0.1:1234"), None);
}

#[test]
fn a_binding_without_a_number_names_no_port() {
    assert_eq!(parse_port(""), None);
    assert_eq!(parse_port("*:*"), None);
    assert_eq!(parse_port("host:70000"), None);
    assert_eq!(parse_port("[8080]"), Some(8080));
    assert_eq!(parse_port("8080"), Some(8080));
}

fn listed(listeners: &[Listener]) -> Vec<(u16, &str, &str)> {
    listeners.iter().map(|l| (l.port, l.command.as_str(), l.pid.as_str())).collect()
}

#[test]
fn reads_listeners_from_a_report() {
    let report = b"p100\ncnode\nf1\nn*:3000\nn[::1]:3000\np200\ncRapportD\nn*:49152\n\np300\ncpython\nn127.0.0.1:8000->x:1\nn127.0.0.1:8000\np400\ncother\nn*:49152\n";
    let listeners = parse_listeners(report);
    assert_eq!(listed(&listeners), vec![(3000, "node", "100"), (8000, "python", "300")]);
    assert!(parse_listeners(b"").is_empty());
}

#[test]
fn the_process_of_a_binding_is_the_last_one_named() {
    let listeners = parse_listeners(b"n*:1\np7\nn*:2\ncsh\nn*:3\r\n");
    assert_eq!(listed(&listeners), vec![(1, "", ""), (2, "", "7"), (3, "sh", "7")]);
}

#[test]
fn reports_a_failed_scan() {
    assert_eq!(report_failure(b"  lsof: no\n"), "lsof: no");
    assert_eq!(report_failure(b"\xff\n"), "\u{fffd}");
}

#[test]
fn recognises_http() {
    assert!(looks_like_http(b"HTTP/1.1 200 OK"));
    assert!(!looks_like_http(b"SSH-2.0"));
    assert!(!looks_like_http(b""));
}

#[test]
fn skips_commands_of_the_system() {
    assert!(should_skip_command("RAPPORTD"));
    assert!(should_skip_command("Microsoft Edge Helper"));
    assert!(should_skip_command("ControlCenter"));
    assert!(should_skip_command("sharingd"));
    assert!(!should_skip_command("node"));
}

fn classified(port: u16, command: &str, http_ready: bool, package_json: bool) -> DetectedService {
    classify_service(port, command, "42", http_ready, &ProjectFingerprints { package_json })
}

fn summary(s: &DetectedService) -> (&str, &str, &str, i32, Option<&str>) {
    (s.name.as_str(), s.role.as_str(), s.framework.as_str(), s.score, s.risk_reason.as_deref())
}

#[test]
fn classifies_services() {
    assert_eq!(summary(&classified(6006, "x", true, false)), ("docs", "docs", "storybook", 90, None));
    assert_eq!(summary(&classified(9, "Start-Storybook", true, false)), ("docs", "docs", "storybook", 90, None));
    assert_eq!(summary(&classified(3000, "node", true, true)), ("frontend", "frontend", "nextjs", 95, None));
    assert_eq!(summary(&classified(4173, "x", true, false)), ("frontend", "frontend", "vite", 95, None));
    assert_eq!(summary(&classified(9, "NUXT", true, false)), ("frontend", "frontend", "nuxt", 95, None));
    assert_eq!(summary(&classified(9, "gunicorn", true, false)), ("api", "api", "python-web", 85, None));
    assert_eq!(summary(&classified(9, "puma", true, false)), ("api", "api", "rails", 80, None));
    assert_eq!(summary(&classified(3001, "node", true, true)), ("frontend", "frontend", "node-web", 80, None));
    assert_eq!(summary(&classified(3001, "node", true, false)), ("frontend", "frontend", "node", 80, None));
    assert_eq!(summary(&classified(8787, "x", true, false)), ("api", "api", "http", 70, None));
    assert_eq!(summary(&classified(7000, "x", true, false)), ("app-7000", "app", "http", 60, None));
}

#[test]
fn tells_why_a_service_is_risky() {
    assert_eq!(
        summary(&classified(5432, "x", true, false)),
        ("app-5432", "app", "http", 20, Some("sensitive data or infrastructure port"))
    );
    assert_eq!(
        summary(&classified(9092, "x", false, false)),
        ("service-9092-42", "unknown", "unknown", -15, Some("sensitive data or infrastructure port"))
    );
    assert_eq!(
        summary(&classified(7000, "x", false, false)),
        ("service-7000-42", "unknown", "unknown", 25, Some("service does not look like HTTP"))
    );
    assert_eq!(
        summary(&classified(6379, "Redis-Server", false, false)),
        ("service-6379-42", "unknown", "unknown", -60, Some("database process"))
    );
    let risky = classified(6379, "redis", true, false);
    assert!(risky.risky && !should_include_service(&risky));
    assert!(should_include_service(&classified(7000, "x", true, false)));
    assert!(!should_include_service(&classified(7000, "x", false, false)));
}

#[test]
fn suggests_names() {
    assert_eq!(suggest_name("webhook", "any", 1, "2"), "webhook");
    assert_eq!(suggest_name("app", "http", 81, "2"), "app-81");
    assert_eq!(suggest_name("other", "unknown", 81, "2"), "service-81-2");
    assert_eq!(suggest_name("other", "deno", 81, "2"), "deno-81");
}

#[test]
fn a_service_keeps_its_settings() {
    let config = classified(8000, "uvicorn", true, false).to_config();
    assert_eq!(config.name, "api");
    assert_eq!(config.port, 8000);
    assert_eq!(config.role, "api");
    assert_eq!(config.framework, "python-web");
    assert_eq!(config.healthcheck_path, "/");
}

fn probed(port: u16, command: &str, http_ready: bool) -> ProbedListener {
    ProbedListener {
        listener: Listener { port, command: command.to_string(), pid: "1".to_string() },
        http_ready,
    }
}

#[test]
fn ranks_what_can_be_shared() {
    let found = vec![
        probed(7001, "x", true),
        probed(7000, "y", true),
        probed(5173, "z", true),
        probed(5432, "postgres", true),
        probed(8000, "w", false),
        probed(9000, "Alice-server", true),
    ];
    let ranked = rank_services(&found, "ALICE", &ProjectFingerprints { package_json: false });
    let ports: Vec<(u16, i32)> = ranked.iter().map(|s| (s.port, s.score)).collect();
    assert_eq!(ports, vec![(5173, 95), (9000, 72), (7000, 60), (7001, 60)]);
}

#[test]
fn a_user_without_a_name_is_in_every_command() {
    let ranked = rank_services(&[probed(7001, "x", true)], "", &ProjectFingerprints { package_json: false });
    assert_eq!(ranked[0].score, 62);
}

#[test]
fn lists_services() {
    assert_eq!(service_table(&[]), vec!["No listening localhost services detected.".to_string()]);
    let mut risky = classified(3306, "mysqld", false, false);
    risky.name = "a-name-that-is-long".to_string();
    let mut quiet = classified(7000, "x", true, false);
    quiet.http_ready = false;
    let lines = service_table(&[classified(7000, "proc", true, false), risky, quiet]);
    assert_eq!(
        lines,
        vec![
            format!("{:<4} {:<12} {:<6} {:<10} {:<12} {:<7} {}", "#", "name", "port", "role", "framework", "score", "notes"),
            format!("{:<4} {:<12} {:<6} {:<10} {:<12} {:<7} {}", 1, "app-7000", 7000, "app", "http", 60, "process: proc"),
            format!("{:<4} {:<12} {:<6} {:<10} {:<12} {:<7} {}", 2, "a-name-that-is-long", 3306, "unknown", "unknown", -60, "warning: database process"),
            format!("{:<4} {:<12} {:<6} {:<10} {:<12} {:<7} {}", 3, "app-7000", 7000, "app", "http", 60, "warning: not http"),
        ]
    );
}
