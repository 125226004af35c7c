use localtoglobal::cli::args::{
    apply_protect_flags, parse_command, parse_routes_action, parse_share_options, required_arg,
    Command, RoutesAction,
};
use localtoglobal::cli::choice::{
    check_target, choose_selector, confirm, project_name, prompt_for_service, selection_prompt,
    settle_concern, Selection,
};
use localtoglobal::cli::report::{
    help_text, protection_report, routes_report, routes_written, run_report, share_report,
    status_entry, status_head,
};
use localtoglobal::config::{Protection, RouteConfig};
use localtoglobal::detect::classify::{classify_service, DetectedService, ProjectFingerprints};
use localtoglobal::routes::ShareRoute;
use localtoglobal::share::state::ActiveShare;
use localtoglobal::share::target::ShareTarget;

fn words(text: &str) -> Vec<String> {
    text.split_whitespace().map(|s| s.to_string()).collect()
}

#[test]
fn reads_commands() {
    assert!(matches!(parse_command(&[]), Ok(Command::Help)));
    for help in ["help", "--help", "-h"] {
        assert!(matches!(parse_command(&words(help)), Ok(Command::Help)));
    }
    assert!(matches!(parse_command(&words("run now")), Ok(Command::Run)));
    assert!(matches!(parse_command(&words("status")), Ok(Command::Status)));
    assert!(matches!(parse_command(&words("share a b")), Ok(Command::Share(rest)) if rest == words("a b")));
    assert!(matches!(parse_command(&words("routes init")), Ok(Command::Routes(rest)) if rest == words("init")));
    assert!(matches!(parse_command(&words("protect")), Ok(Command::Protect(rest)) if rest.is_empty()));
    assert!(matches!(parse_command(&words("__serve-share --a b")), Ok(Command::Serve(rest)) if rest == words("--a b")));
    assert_eq!(
        parse_command(&words("shore")).unwrap_err(),
        "unknown command 'shore'. Run `ltg help` for usage."
    );
}

#[test]
fn reads_what_to_do_about_routes() {
    assert_eq!(parse_routes_action(&[]), Ok(RoutesAction::Show));
    assert_eq!(parse_routes_action(&words("show")), Ok(RoutesAction::Show));
    assert_eq!(parse_routes_action(&words("init more")), Ok(RoutesAction::Init));
    assert_eq!(
        parse_routes_action(&words("drop")).unwrap_err(),
        "unsupported routes action 'drop'. Use `show` or `init`."
    );
}

#[test]
fn a_flag_needs_its_value() {
    let args = words("a b");
    assert_eq!(required_arg(&args, 1, "--f"), Ok("b"));
    assert_eq!(required_arg(&args, 2, "--f"), Err("missing value for --f".to_string()));
}

#[test]
fn reads_the_options_of_a_share() {
    let options = parse_share_options(&words(
        "--expires-in 1h api --access-mode token --share-token --public --detach --expires-in 5m",
    ))
    .unwrap();
    assert_eq!(options.selector.as_deref(), Some("api"));
    assert_eq!(options.expires_in.as_deref(), Some("5m"));
    assert_eq!(options.access_mode.as_deref(), Some("token"));
    assert_eq!(options.share_token.as_deref(), Some("--public"));
    assert!(!options.public);
    assert!(options.detach);
    let options = parse_share_options(&words("--public")).unwrap();
    assert!(options.public && !options.detach && options.selector.is_none());
}

#[test]
fn refuses_options_that_it_does_not_know() {
    assert_eq!(
        parse_share_options(&words("--expires-in")).unwrap_err(),
        "missing value for --expires-in"
    );
    assert_eq!(
        parse_share_options(&words("--access-mode")).unwrap_err(),
        "missing value for --access-mode"
    );
    assert_eq!(
        parse_share_options(&words("x --share-token")).unwrap_err(),
        "missing value for --share-token"
    );
    assert_eq!(
        parse_share_options(&words("--fast")).unwrap_err(),
        "unsupported share flag '--fast'"
    );
    assert_eq!(
        parse_share_options(&words("one two")).unwrap_err(),
        "unexpected extra argument 'two'"
    );
}

fn protection() -> Protection {
    Protection {
        expires_in: "1h".to_string(),
        access_mode: "token".to_string(),
        share_token: "auto".to_string(),
        warn_on_sensitive_ports: true,
    }
}

fn settings(p: &Protection) -> (&str, &str, &str, bool) {
    (p.expires_in.as_str(), p.access_mode.as_str(), p.share_token.as_str(), p.warn_on_sensitive_ports)
}

#[test]
fn changes_a_protection() {
    let changed = apply_protect_flags(
        &protection(),
        &words("--expires-in 30m --access-mode public --no-warn-sensitive"),
    )
    .unwrap();
    assert_eq!(settings(&changed), ("30m", "public", "auto", false));
    let changed = apply_protect_flags(&changed, &words("--share-token t --warn-sensitive")).unwrap();
    assert_eq!(settings(&changed), ("30m", "public", "t", true));
    assert_eq!(settings(&apply_protect_flags(&changed, &[]).unwrap()), ("30m", "public", "t", true));
}

#[test]
fn refuses_protections_that_it_does_not_know() {
    assert_eq!(
        apply_protect_flags(&protection(), &words("--public")).unwrap_err(),
        "unsupported protect flag '--public'"
    );
    assert_eq!(
        apply_protect_flags(&protection(), &words("--share-token")).unwrap_err(),
        "missing value for --share-token"
    );
    assert_eq!(
        apply_protect_flags(&protection(), &words("--expires-in")).unwrap_err(),
        "missing value for --expires-in"
    );
    assert_eq!(
        apply_protect_flags(&protection(), &words("--access-mode")).unwrap_err(),
        "missing value for --access-mode"
    );
}

fn service(port: u16) -> DetectedService {
    classify_service(port, "x", "1", true, &ProjectFingerprints { package_json: false })
}

#[test]
fn asks_only_where_there_is_a_choice() {
    let one = vec![service(7000)];
    let two = vec![service(7000), service(7001)];
    assert!(matches!(choose_selector(Some("a"), &two), Selection::Known(Some(name)) if name == "a"));
    assert!(matches!(choose_selector(None, &two), Selection::Ask));
    assert!(matches!(choose_selector(None, &one), Selection::Known(Some(name)) if name == "app-7000"));
    assert!(matches!(choose_selector(None, &[]), Selection::Known(None)));
    assert_eq!(selection_prompt(12), "Selection [1-12]: ");
}

#[test]
fn picks_a_service() {
    let services = vec![service(7000), service(7001)];
    assert_eq!(prompt_for_service(&services, " 2\n").unwrap(), "app-7001");
    assert_eq!(prompt_for_service(&services, "1").unwrap(), "app-7000");
    assert_eq!(prompt_for_service(&services, "0").unwrap(), "app-7000");
    assert_eq!(prompt_for_service(&services, "3").unwrap_err(), "selection out of range");
    assert_eq!(
        prompt_for_service(&services, "two").unwrap_err(),
        "invalid selection: invalid digit found in string"
    );
    assert_eq!(
        prompt_for_service(&services, "").unwrap_err(),
        "invalid selection: cannot parse integer from empty string"
    );
    assert_eq!(
        prompt_for_service(&services, "99999999999999999999999").unwrap_err(),
        "invalid selection: number too large to fit in target type"
    );
}

#[test]
fn takes_a_yes_for_a_yes() {
    assert!(confirm("y\n"));
    assert!(confirm(" YES "));
    assert!(!confirm(""));
    assert!(!confirm("no"));
    assert!(!confirm("yes please"));
}

fn target(risky: bool, reason: Option<&str>) -> ShareTarget {
    ShareTarget {
        label: "l".to_string(),
        description: "d".to_string(),
        routes: vec![ShareRoute { path: "/".to_string(), upstream_port: 1 }],
        risky,
        risk_reason: reason.map(|r| r.to_string()),
    }
}

#[test]
fn warns_of_risky_targets() {
    assert_eq!(check_target(&target(false, None), true), Ok(None));
    assert_eq!(check_target(&target(true, Some("x")), false), Ok(None));
    assert_eq!(check_target(&target(true, Some("x")), true), Ok(Some("Warning: x".to_string())));
    assert_eq!(
        check_target(&target(true, None), true),
        Ok(Some("Warning: this target looks risky to expose".to_string()))
    );
    let mut empty = target(true, None);
    empty.routes = Vec::new();
    assert_eq!(
        check_target(&empty, true).unwrap_err(),
        "the selected share target has no active routes"
    );
}

#[test]
fn a_no_cancels_a_risky_share() {
    assert_eq!(settle_concern(&target(true, Some("x")), true, "yes\n"), Ok(()));
    assert_eq!(settle_concern(&target(true, Some("x")), true, "\n"), Err("share cancelled".to_string()));
    assert_eq!(settle_concern(&target(true, Some("x")), false, "no"), Ok(()));
    assert_eq!(settle_concern(&target(false, None), true, ""), Ok(()));
    let mut empty = target(true, None);
    empty.routes = Vec::new();
    assert_eq!(
        settle_concern(&empty, true, "y").unwrap_err(),
        "the selected share target has no active routes"
    );
}

#[test]
fn names_projects() {
    assert_eq!(project_name(Some("shop")), "shop");
    assert_eq!(project_name(None), "localtoglobal");
}

#[test]
fn recommends_a_target() {
    let mut best = service(7000);
    assert_eq!(
        run_report(Some(&best), "/p/.localtoglobal.yml"),
        vec![
            "",
            "Recommended share target: app-7000 (port 7000, role app, framework http)",
            "Project config synced to /p/.localtoglobal.yml",
        ]
    );
    best.risky = true;
    assert_eq!(
        run_report(Some(&best), "c")[2],
        "Warning: this service looks risky to expose"
    );
    assert_eq!(
        run_report(None, "c"),
        vec![
            "",
            "No shareable HTTP services detected. Start your local app, then re-run `ltg run`.",
            "Project config synced to c",
        ]
    );
}

fn share() -> ActiveShare {
    ActiveShare {
        id: "share-17".to_string(),
        target_label: "api".to_string(),
        target_description: "web on port 80".to_string(),
        public_url: "https://u".to_string(),
        access_mode: "token".to_string(),
        share_token: Some("t".to_string()),
        started_at: 17,
        expires_at: Some(100),
        pid: 7,
        cloudflared_pid: Some(8),
        status: "active".to_string(),
        proxy_port: 9,
    }
}

#[test]
fn tells_of_a_share() {
    assert_eq!(
        share_report(&share(), false),
        vec![
            "Share ready: https://u?ltg_token=t",
            "Target: api (web on port 80)",
            "Access mode: token",
            "Share token: t",
            "Raw URL: https://u",
            "Tip: send header `X-LTG-Token: t` if you cannot use query params.",
            "Expires at: 100",
            "Share id: share-17",
            "Tunnel is running in the foreground. Keep this command open; press Ctrl+C to stop.",
        ]
    );
    let mut open = share();
    open.access_mode = "public".to_string();
    open.share_token = None;
    open.expires_at = None;
    assert_eq!(
        share_report(&open, true),
        vec![
            "Share ready: https://u",
            "Target: api (web on port 80)",
            "Access mode: public",
            "Share id: share-17",
        ]
    );
}

#[test]
fn tells_of_routes() {
    assert_eq!(
        routes_report(&[]),
        vec!["No route profiles configured. Run `ltg routes init` to scaffold a default profile."]
    );
    let routes = vec![
        RouteConfig { profile: "a".to_string(), path: "/".to_string(), service: "s".to_string() },
        RouteConfig { profile: "b".to_string(), path: "/x".to_string(), service: "t".to_string() },
    ];
    assert_eq!(
        routes_report(&routes),
        vec!["Route profiles:", "  profile=a path=/ service=s", "  profile=b path=/x service=t"]
    );
    assert_eq!(routes_written("c"), "Route profiles written to c");
}

#[test]
fn tells_of_a_protection() {
    let mut p = protection();
    assert_eq!(
        protection_report(&p),
        vec![
            "Updated protection defaults:",
            "  expires_in=1h",
            "  access_mode=token",
            "  share_token=auto",
            "  warn_on_sensitive_ports=true",
        ]
    );
    p.warn_on_sensitive_ports = false;
    assert_eq!(protection_report(&p)[4], "  warn_on_sensitive_ports=false");
}

#[test]
fn lists_the_status_of_shares() {
    assert_eq!(status_head(0), "No share state found for this project.");
    assert_eq!(
        status_head(1),
        format!("{:<18} {:<14} {:<10} {:<8} {:<8} {}", "share_id", "target", "status", "access", "hits", "launch_url")
    );
    let visitors = vec!["1.2.3.4".to_string(), "5.6.7.8".to_string()];
    assert_eq!(
        status_entry(&share(), 12, &visitors),
        vec![
            format!("{:<18} {:<14} {:<10} {:<8} {:<8} {}", "share-17", "api", "active", "token", 12, "https://u?ltg_token=t"),
            "  expires_at=100".to_string(),
            "  raw_url=https://u".to_string(),
            "  visitors=1.2.3.4, 5.6.7.8".to_string(),
            format!("  proxy_port={} pid={} cloudflared_pid={:?}", 9, 7, Some(8)),
        ]
    );
    let mut bare = share();
    bare.access_mode = "public".to_string();
    bare.expires_at = None;
    bare.cloudflared_pid = None;
    assert_eq!(
        status_entry(&bare, 0, &Vec::new()),
        vec![
            format!("{:<18} {:<14} {:<10} {:<8} {:<8} {}", "share-17", "api", "active", "public", 0, "https://u"),
            "  proxy_port=9 pid=7 cloudflared_pid=None".to_string(),
        ]
    );
}

#[test]
fn tells_how_it_is_used() {
    let lines = help_text();
    assert_eq!(lines.len(), 21);
    assert_eq!(lines[0], "LocalToGlobal (ltg)");
    assert_eq!(lines[1], "");
    assert_eq!(lines[6], "  protect [flags]     Update protection defaults in .localtoglobal.yml");
    assert_eq!(lines[20], "  --warn-sensitive | --no-warn-sensitive");
}
