use localtoglobal::cli::args::{parse_command, Command};
use localtoglobal::cli::choice::check_target;
use localtoglobal::config::{Config, DefaultShare, Protection, RouteConfig, ServiceConfig};
use localtoglobal::detect::classify::{classify_service, DetectedService, ProjectFingerprints};
use localtoglobal::detect::listeners::Listener;
use localtoglobal::detect::rank::{rank_services, ProbedListener};
use localtoglobal::paths::{
    access_log_path, is_state_file, logs_dir, runner_log_path, state_dir, state_path,
    tunnel_log_path, Place,
};
use localtoglobal::proxy::guard::{ClientEvent, Intake, IntakeStep};
use localtoglobal::proxy::tokens::{cookie_value, split_uri, strip_token_from_query};
use localtoglobal::routes::parse_routes;
use localtoglobal::share::fields::{escape_state, unescape_state};
use localtoglobal::share::protection::{
    effective_protection, expiry_fits, generate_token, parse_duration_seconds, share_expiry,
    ShareOptions,
};
use localtoglobal::share::state::{load_active_share, save_active_share, ActiveShare};
use localtoglobal::share::status::{
    list_active_shares, load_shares, probe_args, process_alive, refresh_share_status,
    wait_for_state, LaunchStep, Probe, ProbedShare, StateFile,
};
use localtoglobal::share::target::{resolve_target, ShareTarget};
use localtoglobal::share::worker::{
    await_tunnel, plan_launch, proxy_port_candidates, share_id, supervise, tunnel_args,
    worker_args, InternalArgs, TunnelState, TunnelStep, WorkerNext,
};
use std::path::{Path, PathBuf};

fn service(name: &str, port: u16) -> ServiceConfig {
    ServiceConfig {
        name: name.to_string(),
        port,
        role: "web".to_string(),
        framework: "http".to_string(),
        healthcheck_path: "/".to_string(),
    }
}

fn profile_route(profile: &str, path: &str, service: &str) -> RouteConfig {
    RouteConfig {
        profile: profile.to_string(),
        path: path.to_string(),
        service: service.to_string(),
    }
}

fn config() -> Config {
    Config {
        default_share: DefaultShare { target: "auto".to_string() },
        services: vec![service("site", 3000), service("api", 8000), service("db", 5432)],
        routes: vec![
            profile_route("full", "/", "site"),
            profile_route("full", "/api", "api"),
            profile_route("full", "/db", "db"),
            profile_route("broken", "/x", "gone"),
        ],
        protection: Protection {
            expires_in: "1h".to_string(),
            access_mode: "token".to_string(),
            share_token: "auto".to_string(),
            warn_on_sensitive_ports: true,
        },
    }
}

fn detected(port: u16, command: &str, http_ready: bool) -> DetectedService {
    classify_service(port, command, "1", http_ready, &ProjectFingerprints { package_json: false })
}

fn routes_of(target: &ShareTarget) -> Vec<(&str, u16)> {
    target.routes.iter().map(|r| (r.path.as_str(), r.upstream_port)).collect()
}

#[test]
fn a_port_names_its_service() {
    let target = resolve_target(Some("8000"), &config(), &[]).unwrap();
    assert_eq!(target.label, "api");
    assert_eq!(target.description, "web on port 8000");
    assert_eq!(routes_of(&target), vec![("/", 8000)]);
    assert!(!target.risky);
    let target = resolve_target(Some("9999"), &config(), &[detected(9999, "x", false)]).unwrap();
    assert_eq!(target.label, "service-9999");
    assert_eq!(target.description, "app on port 9999");
    assert!(target.risky);
    assert_eq!(target.risk_reason.as_deref(), Some("service does not look like HTTP"));
}

#[test]
fn a_name_names_a_service_and_then_a_profile() {
    let target = resolve_target(Some("site"), &config(), &[]).unwrap();
    assert_eq!((target.label.as_str(), routes_of(&target)), ("site", vec![("/", 3000)]));
    let target = resolve_target(Some("full"), &config(), &[detected(5432, "x", true)]).unwrap();
    assert_eq!(target.label, "full");
    assert_eq!(target.description, "route profile with 3 mappings");
    assert_eq!(routes_of(&target), vec![("/api", 8000), ("/db", 5432), ("/", 3000)]);
    assert!(target.risky);
    assert_eq!(
        target.risk_reason.as_deref(),
        Some("/db -> sensitive data or infrastructure port")
    );
}

#[test]
fn a_target_that_is_not_there_is_an_error() {
    assert_eq!(
        resolve_target(Some("nothing"), &config(), &[]).unwrap_err(),
        "could not find a service, port, or route profile named 'nothing'"
    );
    assert_eq!(
        resolve_target(Some("broken"), &config(), &[]).unwrap_err(),
        "route '/x' references missing service 'gone'"
    );
    assert_eq!(
        resolve_target(None, &config(), &[]).unwrap_err(),
        "no listening services available to share"
    );
}

#[test]
fn without_a_selector_the_default_counts_and_then_what_was_detected() {
    let target = resolve_target(None, &config(), &[detected(7000, "x", true)]).unwrap();
    assert_eq!(target.label, "app-7000");
    assert_eq!(target.description, "app on port 7000");
    let mut with_default = config();
    with_default.default_share.target = "api".to_string();
    let target = resolve_target(None, &with_default, &[detected(7000, "x", true)]).unwrap();
    assert_eq!(target.label, "api");
}

fn no_options() -> ShareOptions {
    ShareOptions {
        selector: None,
        expires_in: None,
        access_mode: None,
        share_token: None,
        public: false,
        detach: false,
    }
}

#[test]
fn the_command_line_outweighs_the_configuration() {
    let protection = effective_protection(&config(), &no_options(), 1000, 1);
    assert_eq!(protection.expires_in, "1h");
    assert_eq!(protection.access_mode, "token");
    assert_eq!(protection.share_token, "ltg-3e9");
    let mut options = no_options();
    options.expires_in = Some("5m".to_string());
    options.share_token = Some("mine".to_string());
    let protection = effective_protection(&config(), &options, 1000, 1);
    assert_eq!((protection.expires_in.as_str(), protection.share_token.as_str()), ("5m", "mine"));
    options.access_mode = Some("open".to_string());
    options.share_token = Some("auto".to_string());
    let protection = effective_protection(&config(), &options, 1000, 1);
    assert_eq!((protection.access_mode.as_str(), protection.share_token.as_str()), ("open", "auto"));
}

#[test]
fn a_public_share_has_no_token() {
    let mut options = no_options();
    options.public = true;
    options.access_mode = Some("token".to_string());
    options.share_token = Some("mine".to_string());
    let protection = effective_protection(&config(), &options, 1000, 1);
    assert_eq!((protection.access_mode.as_str(), protection.share_token.as_str()), ("public", ""));
    assert!(protection.warn_on_sensitive_ports);
}

#[test]
fn makes_tokens() {
    assert_eq!(generate_token(0, 0), "ltg-0");
    assert_eq!(generate_token(0x65f0_1234_5678_9abc, 0xff), "ltg-65f0123456789a43");
}

#[test]
fn reads_durations() {
    assert_eq!(parse_duration_seconds("1h"), Ok(3600));
    assert_eq!(parse_duration_seconds(" 30m "), Ok(1800));
    assert_eq!(parse_duration_seconds("45s"), Ok(45));
    assert_eq!(parse_duration_seconds("120"), Ok(120));
    assert_eq!(parse_duration_seconds(" "), Err("expires_in cannot be empty".to_string()));
    assert_eq!(
        parse_duration_seconds("xh"),
        Err("invalid hour duration 'xh': invalid digit found in string".to_string())
    );
    assert_eq!(
        parse_duration_seconds("m"),
        Err("invalid minute duration 'm': cannot parse integer from empty string".to_string())
    );
    assert_eq!(
        parse_duration_seconds("-1s"),
        Err("invalid second duration '-1s': invalid digit found in string".to_string())
    );
    assert_eq!(
        parse_duration_seconds("1d"),
        Err("invalid duration '1d': invalid digit found in string".to_string())
    );
}

#[test]
fn a_share_ends_after_its_duration() {
    assert_eq!(share_expiry(100, ""), Ok(None));
    assert_eq!(share_expiry(100, "2m"), Ok(Some(220)));
    assert_eq!(share_expiry(100, " "), Err("expires_in cannot be empty".to_string()));
    assert!(expiry_fits(100, "2m"));
    assert!(expiry_fits(100, "never"));
    assert!(expiry_fits(100, ""));
    assert!(!expiry_fits(100, "18446744073709551615"));
    assert!(!expiry_fits(0, "18446744073709551615h"));
    assert!(expiry_fits(0, "18446744073709551615"));
}

fn active() -> ActiveShare {
    ActiveShare {
        id: "share-17".to_string(),
        target_label: "api".to_string(),
        target_description: "line one\nline \\ two".to_string(),
        public_url: "https://a.trycloudflare.com".to_string(),
        access_mode: "token".to_string(),
        share_token: Some("ltg-1".to_string()),
        started_at: 17,
        expires_at: Some(100),
        pid: 7,
        cloudflared_pid: Some(8),
        status: "active".to_string(),
        proxy_port: 43120,
    }
}

#[test]
fn hands_out_a_url_with_the_token() {
    let mut share = active();
    assert_eq!(share.launch_url(), "https://a.trycloudflare.com?ltg_token=ltg-1");
    share.public_url = "https://a.trycloudflare.com/?x=1".to_string();
    assert_eq!(share.launch_url(), "https://a.trycloudflare.com/?x=1&ltg_token=ltg-1");
    let url = share.launch_url();
    let query = split_uri(&url).1;
    assert_eq!(strip_token_from_query(&query).1.as_deref(), Some("ltg-1"));
    share.share_token = None;
    assert_eq!(share.launch_url(), "https://a.trycloudflare.com/?x=1");
    share.share_token = Some("ltg-1".to_string());
    share.access_mode = "public".to_string();
    assert_eq!(share.launch_url(), "https://a.trycloudflare.com/?x=1");
}

const STATE: &str = "id=share-17\ntarget_label=api\ntarget_description=line one\\nline \\\\ two\npublic_url=https://a.trycloudflare.com\naccess_mode=token\nshare_token=ltg-1\nstarted_at=17\nexpires_at=100\npid=7\ncloudflared_pid=8\nstatus=active\nproxy_port=43120\n";

#[test]
fn writes_the_state_of_a_share() {
    assert_eq!(save_active_share(&active()), STATE);
}

#[test]
fn the_state_of_a_share_reads_back() {
    let mut share = active();
    let read = load_active_share(&save_active_share(&share)).unwrap();
    assert_eq!(save_active_share(&read), STATE);
    assert_eq!(read.target_description, share.target_description);
    assert_eq!(read.share_token, share.share_token);
    assert_eq!((read.started_at, read.expires_at), (17, Some(100)));
    assert_eq!((read.pid, read.cloudflared_pid, read.proxy_port), (7, Some(8), 43120));
    share.share_token = None;
    share.expires_at = None;
    share.cloudflared_pid = None;
    let read = load_active_share(&save_active_share(&share)).unwrap();
    assert_eq!((read.share_token, read.expires_at, read.cloudflared_pid), (None, None, None));
}

#[test]
fn fills_in_what_a_state_lacks() {
    let share = load_active_share("noise\nid=a\r\ntarget_label=b\ntarget_description=c=d\nid=z\npid=x\n").unwrap();
    assert_eq!(share.id, "z");
    assert_eq!(share.target_description, "c=d");
    assert_eq!(share.public_url, "");
    assert_eq!(share.access_mode, "token");
    assert_eq!(share.share_token, None);
    assert_eq!((share.started_at, share.pid, share.proxy_port), (0, 0, 0));
    assert_eq!(share.status, "unknown");
}

#[test]
fn a_state_needs_its_first_fields() {
    assert_eq!(load_active_share("").unwrap_err(), "share state missing key 'id'");
    assert_eq!(load_active_share("id=a").unwrap_err(), "share state missing key 'target_label'");
    assert_eq!(
        load_active_share("id=a\ntarget_label=b").unwrap_err(),
        "share state missing key 'target_description'"
    );
}

#[test]
fn escapes_values() {
    assert_eq!(escape_state("a\\b\nc"), "a\\\\b\\nc");
    assert_eq!(unescape_state("a\\\\b\\nc"), "a\\b\nc");
    assert_eq!(unescape_state(&escape_state("\\\\\n\n")), "\\\\\n\n");
}

#[test]
fn a_backslash_before_an_n_does_not_come_back() {
    assert_eq!(unescape_state(&escape_state("\\n")), "\\\n");
}

fn refreshed(now: u64, worker: Option<bool>, tunnel: Option<bool>) -> String {
    let mut share = active();
    refresh_share_status(&mut share, now, Probe { worker, tunnel });
    share.status
}

#[test]
fn brings_the_status_up_to_date() {
    assert_eq!(refreshed(99, Some(true), Some(true)), "active");
    assert_eq!(refreshed(99, None, None), "active");
    assert_eq!(refreshed(100, Some(false), Some(false)), "expired");
    assert_eq!(refreshed(99, Some(false), Some(false)), "stopped");
    assert_eq!(refreshed(99, None, Some(false)), "cloudflared-stopped");
    let mut share = active();
    share.cloudflared_pid = None;
    refresh_share_status(&mut share, 99, Probe { worker: None, tunnel: Some(false) });
    assert_eq!(share.status, "active");
}

#[test]
fn asks_for_processes() {
    assert_eq!(probe_args(0), None);
    let expected: Vec<String> = ["-p", "77", "-o", "pid="].iter().map(|s| s.to_string()).collect();
    assert_eq!(probe_args(77), Some(expected));
    assert_eq!(process_alive(true, b"  77\n"), Some(true));
    assert_eq!(process_alive(true, b" \n"), Some(false));
    assert_eq!(process_alive(false, b"  77\n"), None);
}

#[test]
fn lists_shares_newest_first() {
    let mut old = active();
    old.started_at = 5;
    let mut twin = active();
    twin.id = "twin".to_string();
    let files = vec![
        StateFile { name: "a.state".to_string(), contents: Some(save_active_share(&old)) },
        StateFile { name: "b.state".to_string(), contents: Some(save_active_share(&active())) },
        StateFile { name: "c.log".to_string(), contents: Some(save_active_share(&active())) },
        StateFile { name: "d.state".to_string(), contents: None },
        StateFile { name: "e.state".to_string(), contents: Some("junk".to_string()) },
        StateFile { name: "f.state".to_string(), contents: Some(save_active_share(&twin)) },
    ];
    let shares = load_shares(&files);
    assert_eq!(shares.len(), 3);
    let probed: Vec<ProbedShare> = shares
        .into_iter()
        .map(|share| ProbedShare { share, probe: Probe { worker: Some(false), tunnel: None } })
        .collect();
    let listed = list_active_shares(&probed, 50);
    let ids: Vec<(&str, u64, &str)> =
        listed.iter().map(|s| (s.id.as_str(), s.started_at, s.status.as_str())).collect();
    assert_eq!(
        ids,
        vec![("share-17", 17, "stopped"), ("twin", 17, "stopped"), ("share-17", 5, "stopped")]
    );
}

#[test]
fn waits_for_a_share_to_come_up() {
    assert!(matches!(
        wait_for_state(0, Some(STATE), Some("error: no"), 9, "/p/logs"),
        LaunchStep::Ready(share) if share.id == "share-17"
    ));
    assert!(matches!(wait_for_state(59, None, Some("starting"), 9, "/p/logs"), LaunchStep::Wait));
    let unpublished = "id=a\ntarget_label=b\ntarget_description=c\n";
    assert!(matches!(wait_for_state(3, Some(unpublished), None, 9, "/p/logs"), LaunchStep::Wait));
    assert!(matches!(
        wait_for_state(3, Some(unpublished), Some("error: one\nlast words\n"), 9, "/p/logs"),
        LaunchStep::Failed(message) if message == "last words"
    ));
    assert!(matches!(
        wait_for_state(60, Some(STATE), None, 9, "/p/logs"),
        LaunchStep::Failed(message)
            if message == "share worker 9 started but did not publish a URL in time. Check logs in /p/logs"
    ));
}

#[test]
fn plans_the_start_of_a_worker() {
    let target = resolve_target(Some("full"), &config(), &[]).unwrap();
    let mut protection = config().protection;
    protection.share_token = "secret".to_string();
    let plan = plan_launch("/p", &target, &protection, 1000).unwrap();
    assert_eq!(plan.share_id, "share-1000");
    assert_eq!(
        plan.args,
        vec![
            "__serve-share",
            "--project-root",
            "/p",
            "--share-id",
            "share-1000",
            "--label",
            "full",
            "--description",
            "route profile with 3 mappings",
            "--routes",
            "/api=8000,/db=5432,/=3000",
            "--access-mode",
            "token",
            "--expires-at",
            "4600",
            "--share-token",
            "secret",
        ]
    );
    protection.expires_in = "soon".to_string();
    assert_eq!(
        plan_launch("/p", &target, &protection, 1000).unwrap_err(),
        "invalid duration 'soon': invalid digit found in string"
    );
}

#[test]
fn a_worker_is_told_what_its_share_was_started_with() {
    let target = ShareTarget {
        label: "--label".to_string(),
        description: "".to_string(),
        routes: parse_routes("/=80").unwrap(),
        risky: false,
        risk_reason: None,
    };
    let mut protection = config().protection;
    protection.share_token = "--share-id".to_string();
    let args = worker_args("--project-root", "--routes", &target, &protection, Some(5));
    let told = InternalArgs::parse(&args[1..]).unwrap();
    assert_eq!(told.project_root, "--project-root");
    assert_eq!(told.share_id, "--routes");
    assert_eq!(told.label, "--label");
    assert_eq!(told.description, "");
    assert_eq!(told.routes, "/=80");
    assert_eq!(told.access_mode, "token");
    assert_eq!(told.share_token.as_deref(), Some("--share-id"));
    assert_eq!(told.expires_at, Some(5));
    protection.access_mode = "public".to_string();
    let args = worker_args("/p", "id", &target, &protection, None);
    let told = InternalArgs::parse(&args[1..]).unwrap();
    assert_eq!((told.share_token, told.expires_at), (None, None));
}

fn words(text: &str) -> Vec<String> {
    text.split(' ').map(|s| s.to_string()).collect()
}

#[test]
fn a_worker_needs_its_arguments() {
    assert_eq!(
        InternalArgs::parse(&words("--a b --last")).unwrap_err(),
        "missing value for --last"
    );
    assert_eq!(
        InternalArgs::parse(&[]).unwrap_err(),
        "share state missing key 'project-root'"
    );
    let all = words("stray ----project-root /p --share-id i --label l --description d --routes r");
    assert_eq!(InternalArgs::parse(&all).unwrap_err(), "share state missing key 'access-mode'");
    let mut full = all.clone();
    full.extend(words("--access-mode public --expires-at never --label again"));
    let told = InternalArgs::parse(&full).unwrap();
    assert_eq!(told.label, "again");
    assert_eq!(told.expires_at, None);
}

#[test]
fn a_worker_sets_up_its_share() {
    let args = words("--project-root /p --share-id i --label l --description d --routes /=80 --access-mode token --share-token t --expires-at 9");
    let told = InternalArgs::parse(&args).unwrap();
    let guard = told.guard(parse_routes(&told.routes).unwrap());
    let step = Intake::start().advance(
        ClientEvent::Bytes(b"GET /?ltg_token=t HTTP/1.1\r\n\r\n".to_vec()),
        8,
        &guard,
    );
    assert!(matches!(step, IntakeStep::Forward(forward, _) if forward.upstream_port == 80));
    let share = told.started("https://u".to_string(), 4, 5, 6, 7);
    assert_eq!(
        save_active_share(&share),
        "id=i\ntarget_label=l\ntarget_description=d\npublic_url=https://u\naccess_mode=token\nshare_token=t\nstarted_at=4\nexpires_at=9\npid=5\ncloudflared_pid=6\nstatus=active\nproxy_port=7\n"
    );
}

#[test]
fn a_worker_is_started_by_its_command() {
    let target = resolve_target(Some("site"), &config(), &[]).unwrap();
    let args = worker_args("/p", "id", &target, &config().protection, None);
    assert!(matches!(parse_command(&args), Ok(Command::Serve(rest)) if rest == args[1..]));
}

#[test]
fn a_fresh_token_lets_a_visitor_in() {
    let protection = effective_protection(&config(), &no_options(), 1700000000, 4242);
    let target = resolve_target(Some("full"), &config(), &[]).unwrap();
    let plan = plan_launch("/p", &target, &protection, 1700000000).unwrap();
    let told = InternalArgs::parse(&plan.args[1..]).unwrap();
    let guard = told.guard(parse_routes(&told.routes).unwrap());
    let share = told.started("https://a.trycloudflare.com".to_string(), 1700000001, 5, 6, 7);
    let url = share.launch_url();
    let request = format!("GET /?{} HTTP/1.1\r\n\r\n", split_uri(&url).1);
    let step = Intake::start().advance(ClientEvent::Bytes(request.into_bytes()), 1700003599, &guard);
    assert!(matches!(step, IntakeStep::Forward(forward, _) if forward.set_cookie && forward.upstream_port == 3000));
    let request = format!("GET /?{} HTTP/1.1\r\n\r\n", split_uri(&url).1);
    let step = Intake::start().advance(ClientEvent::Bytes(request.into_bytes()), 1700003600, &guard);
    assert!(matches!(step, IntakeStep::Reject(rejection) if rejection.status == 410));
    let cookie = format!("ltg_auth={}", protection.share_token);
    assert_eq!(cookie_value(&cookie, "ltg_auth"), Some(protection.share_token.clone()));
    let read = load_active_share(&save_active_share(&share)).unwrap();
    assert_eq!(read.launch_url(), url);
    assert_ne!(generate_token(1700000000, 4242), generate_token(1700000001, 4242));
}

#[test]
fn a_risky_target_asks_to_be_confirmed() {
    let found = vec![ProbedListener {
        listener: Listener { port: 7000, command: "x".to_string(), pid: "1".to_string() },
        http_ready: true,
    }];
    let offered = rank_services(&found, "me", &ProjectFingerprints { package_json: false });
    let target = resolve_target(None, &config(), &offered).unwrap();
    assert!(!target.risky && !target.routes.is_empty());
    assert_eq!(check_target(&target, true), Ok(None));
    let target = resolve_target(Some("db"), &config(), &[detected(5432, "x", true)]).unwrap();
    assert_eq!(
        check_target(&target, true),
        Ok(Some("Warning: sensitive data or infrastructure port".to_string()))
    );
}

#[test]
fn names_shares() {
    assert_eq!(share_id(1700000000), "share-1700000000");
    assert_eq!(share_id(0), "share-0");
}

#[test]
fn starts_a_tunnel() {
    assert_eq!(
        tunnel_args(43120),
        vec!["tunnel", "--no-autoupdate", "--url", "http://127.0.0.1:43120"]
    );
    let up = "INF https://a.trycloudflare.com";
    assert!(matches!(
        await_tunnel(0, Some(up), TunnelState::Exited("1".to_string()), "/l"),
        TunnelStep::Ready(url) if url == "https://a.trycloudflare.com"
    ));
    assert!(matches!(await_tunnel(59, Some(""), TunnelState::Running, "/l"), TunnelStep::Wait));
    assert!(matches!(
        await_tunnel(3, None, TunnelState::Exited("exit status: 1".to_string()), "/l"),
        TunnelStep::Failed(message)
            if message == "cloudflared exited before creating a tunnel: exit status: 1. Check /l"
    ));
    assert!(matches!(
        await_tunnel(3, None, TunnelState::Unknown("gone".to_string()), "/l"),
        TunnelStep::Failed(message) if message == "failed to poll cloudflared: gone"
    ));
    assert!(matches!(
        await_tunnel(60, Some(up), TunnelState::Running, "/l"),
        TunnelStep::Failed(message)
            if message == "timed out waiting for cloudflared to publish a URL. Check /l"
    ));
}

fn watched(share: &mut ActiveShare, now: u64, process: TunnelState) -> (bool, bool, bool, String) {
    let step = supervise(share, now, process);
    let next = match step.next {
        WorkerNext::LookAgain => "again".to_string(),
        WorkerNext::End => "end".to_string(),
        WorkerNext::Fail(message) => message,
    };
    (step.stop_guard, step.kill_tunnel, step.record, next)
}

#[test]
fn supervises_a_share() {
    let mut share = active();
    assert_eq!(
        watched(&mut share, 99, TunnelState::Running),
        (false, false, true, "again".to_string())
    );
    assert_eq!(share.status, "active");
    assert_eq!(
        watched(&mut share, 99, TunnelState::Unknown("e".to_string())),
        (false, false, false, "failed to check cloudflared: e".to_string())
    );
    assert_eq!(share.status, "active");
    assert_eq!(
        watched(&mut share, 99, TunnelState::Exited("exit status: 1".to_string())),
        (true, false, true, "end".to_string())
    );
    assert_eq!(share.status, "stopped(exit status: 1)");
    assert_eq!(
        watched(&mut share, 100, TunnelState::Exited("x".to_string())),
        (true, true, true, "end".to_string())
    );
    assert_eq!(share.status, "expired");
}

#[test]
fn a_run_records_its_share_until_it_ends() {
    let args = words("--project-root /p --share-id i --label l --description d --routes /=80 --access-mode token --share-token t --expires-at 9");
    let told = InternalArgs::parse(&args).unwrap();
    let mut share = told.started("https://u".to_string(), 4, 5, 6, 7);
    let mut recorded = vec![share.clone()];
    for now in 5..20 {
        let step = supervise(&mut share, now, TunnelState::Running);
        if step.record {
            recorded.push(share.clone());
        }
        if matches!(step.next, WorkerNext::End) {
            assert!(step.stop_guard && step.kill_tunnel);
            assert_eq!(now, 9);
            break;
        }
    }
    let statuses: Vec<&str> = recorded.iter().map(|s| s.status.as_str()).collect();
    assert_eq!(statuses, vec!["active", "active", "active", "active", "active", "expired"]);
    assert!(recorded.iter().all(|s| s.id == "i" && s.public_url == "https://u" && s.expires_at == Some(9)));
}

#[test]
fn copies_are_equal() {
    let mut options = no_options();
    options.selector = Some("a".to_string());
    options.detach = true;
    let copy = options.clone();
    assert_eq!((copy.selector.as_deref(), copy.public, copy.detach), (Some("a"), false, true));
    let target = resolve_target(Some("full"), &config(), &[detected(5432, "x", true)]).unwrap();
    let copy = target.clone();
    assert_eq!(routes_of(&copy), routes_of(&target));
    assert_eq!((copy.label, copy.description), (target.label, target.description));
    assert_eq!((copy.risky, copy.risk_reason), (target.risky, target.risk_reason));
}

#[test]
fn tries_ports_in_order() {
    let ports = proxy_port_candidates();
    assert_eq!(ports.len(), 100);
    assert_eq!((ports[0], ports[99]), (43120, 43219));
}

fn on_disk(place: Place<&Path>) -> PathBuf {
    place.below.iter().fold(place.base.to_path_buf(), |path, name| path.join(name))
}

#[test]
fn keeps_its_files_below_the_project() {
    let root = Path::new("some").join("project");
    let states = root.join(".localtoglobal").join("state");
    let logs = root.join(".localtoglobal").join("logs");
    assert_eq!(on_disk(state_dir(root.as_path())), states);
    assert_eq!(on_disk(logs_dir(root.as_path())), logs);
    assert_eq!(on_disk(state_path(root.as_path(), "i")), states.join("i.state"));
    assert_eq!(on_disk(runner_log_path(root.as_path(), "i")), logs.join("i.runner.log"));
    assert_eq!(on_disk(access_log_path(root.as_path(), "i")), logs.join("i.access.log"));
    assert_eq!(on_disk(tunnel_log_path(root.as_path(), "i")), logs.join("i.cloudflared.log"));
    let place = state_path("/p", "i");
    assert_eq!(place.base, "/p");
    assert_eq!(place.below, vec![".localtoglobal", "state", "i.state"]);
}

#[test]
fn recognises_state_files() {
    assert!(is_state_file("a.state"));
    assert!(is_state_file("a.b.state"));
    assert!(is_state_file("..state"));
    assert!(!is_state_file(".state"));
    assert!(!is_state_file("state"));
    assert!(!is_state_file("a.states"));
    for name in ["a.state", ".state", "a.", "state", "", "a.state.x", "x..state"] {
        assert_eq!(
            is_state_file(name),
            Path::new(name).extension().and_then(|e| e.to_str()) == Some("state")
        );
    }
    assert!(is_state_file(&format!("{}.state", share_id(17))));
}
