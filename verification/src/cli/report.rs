//! What is answered on the command line.
use crate::cli::choice;
use crate::cli::choice::write_warning;
use crate::config::{Protection, ProtectionModel, RouteConfig, RouteConfigModel};
use crate::detect::classify::{DetectedService, ServiceModel};
use crate::detect::table;
use crate::detect::table::pad;
use crate::share::state;
use crate::share::state::{ActiveModel, ActiveShare};
use crate::text::chars;
use crate::text::chars::same;
use crate::text::number;
use crate::text::number::to_decimal;
use crate::text::search;
use crate::text::search::join;
use vstd::prelude::*;

verus! {

/// What is said of the detected services: the one to share first, with a warning if it is risky,
/// and where the configuration was written to.
pub open spec fn run_lines(best: Option<ServiceModel>, config_path: Seq<char>) -> Seq<Seq<char>> {
    (match best {
        Some(s) => seq![
            ""@,
            "Recommended share target: "@ + s.name + " (port "@ + number::decimal(s.port as nat)
                + ", role "@ + s.role + ", framework "@ + s.framework + ")"@,
        ] + if s.risky {
            seq![choice::warning(s.risk_reason, "this service looks risky to expose"@)]
        } else {
            seq![]
        },
        None => seq![
            ""@,
            "No shareable HTTP services detected. Start your local app, then re-run `ltg run`."@,
        ],
    }).push("Project config synced to "@ + config_path)
}

/// The model of a service, if there is one.
pub open spec fn opt_service(service: Option<&DetectedService>) -> Option<ServiceModel> {
    match service {
        Some(s) => Some(s@),
        None => None,
    }
}

/// What is said of the detected services.
pub fn run_report(best: Option<&DetectedService>, config_path: &str) -> (r: Vec<String>)
    ensures
        chars::texts(r@) == run_lines(opt_service(best), config_path@),
{
    let mut lines: Vec<String> = Vec::new();
    lines.push("".to_owned());
    match best {
        Some(s) => {
            lines.push(
                "Recommended share target: ".to_owned().concat(s.name.as_str()).concat(
                    " (port ",
                ).concat(to_decimal(s.port as u64).as_str()).concat(", role ").concat(
                    s.role.as_str(),
                ).concat(", framework ").concat(s.framework.as_str()).concat(")"),
            );
            if s.risky {
                lines.push(write_warning(&s.risk_reason, "this service looks risky to expose"));
            }
        },
        None => {
            lines.push(
                "No shareable HTTP services detected. Start your local app, then re-run `ltg run`.".to_owned(),
            );
        },
    }
    lines.push("Project config synced to ".to_owned().concat(config_path));
    assert(chars::texts(lines@) =~= run_lines(opt_service(best), config_path@));
    lines
}

/// What is said of a share that is up.
pub open spec fn share_lines(share: ActiveModel, detach: bool) -> Seq<Seq<char>> {
    seq![
        "Share ready: "@ + state::launch_url_of(share),
        "Target: "@ + share.target_label + " ("@ + share.target_description + ")"@,
        "Access mode: "@ + share.access_mode,
    ] + (match share.share_token {
        Some(token) => seq![
            "Share token: "@ + token,
            "Raw URL: "@ + share.public_url,
            "Tip: send header `X-LTG-Token: "@ + token + "` if you cannot use query params."@,
        ],
        None => seq![],
    }) + (match share.expires_at {
        Some(end) => seq!["Expires at: "@ + number::decimal(end as nat)],
        None => seq![],
    }) + seq!["Share id: "@ + share.id] + if detach {
        seq![]
    } else {
        seq![
            "Tunnel is running in the foreground. Keep this command open; press Ctrl+C to stop."@,
        ]
    }
}

/// What is said of a share that is up.
pub fn share_report(share: &ActiveShare, detach: bool) -> (r: Vec<String>)
    ensures
        chars::texts(r@) == share_lines(share@, detach),
{
    let mut lines: Vec<String> = Vec::new();
    lines.push("Share ready: ".to_owned().concat(share.launch_url().as_str()));
    lines.push(
        "Target: ".to_owned().concat(share.target_label.as_str()).concat(" (").concat(
            share.target_description.as_str(),
        ).concat(")"),
    );
    lines.push("Access mode: ".to_owned().concat(share.access_mode.as_str()));
    if let Some(token) = &share.share_token {
        lines.push("Share token: ".to_owned().concat(token.as_str()));
        lines.push("Raw URL: ".to_owned().concat(share.public_url.as_str()));
        lines.push(
            "Tip: send header `X-LTG-Token: ".to_owned().concat(token.as_str()).concat(
                "` if you cannot use query params.",
            ),
        );
    }
    if let Some(end) = share.expires_at {
        lines.push("Expires at: ".to_owned().concat(to_decimal(end).as_str()));
    }
    lines.push("Share id: ".to_owned().concat(share.id.as_str()));
    if !detach {
        lines.push(
            "Tunnel is running in the foreground. Keep this command open; press Ctrl+C to stop.".to_owned(),
        );
    }
    assert(chars::texts(lines@) =~= share_lines(share@, detach));
    lines
}

/// The line on a route of a profile.
pub open spec fn route_line(route: RouteConfigModel) -> Seq<char> {
    "  profile="@ + route.profile + " path="@ + route.path + " service="@ + route.service
}

/// What is said of the route profiles.
pub open spec fn routes_lines(routes: Seq<RouteConfigModel>) -> Seq<Seq<char>> {
    if routes.len() == 0 {
        seq![
            "No route profiles configured. Run `ltg routes init` to scaffold a default profile."@,
        ]
    } else {
        seq!["Route profiles:"@] + routes.map_values(|r: RouteConfigModel| route_line(r))
    }
}

/// What is said of the route profiles.
pub fn routes_report(routes: &[RouteConfig]) -> (r: Vec<String>)
    ensures
        chars::texts(r@) == routes_lines(routes@.map_values(|r: RouteConfig| r@)),
{
    let ghost all = routes@.map_values(|r: RouteConfig| r@);
    let mut lines: Vec<String> = Vec::new();
    if routes.len() == 0 {
        lines.push(
            "No route profiles configured. Run `ltg routes init` to scaffold a default profile.".to_owned(),
        );
        assert(chars::texts(lines@) =~= routes_lines(all));
        return lines;
    }
    lines.push("Route profiles:".to_owned());
    let mut i: usize = 0;
    while i < routes.len()
        invariant
            i <= routes@.len(),
            lines@.len() == i + 1,
            lines@[0]@ == "Route profiles:"@,
            forall|j: int| 0 <= j < i ==> (#[trigger] lines@[j + 1])@ == route_line(routes@[j]@),
        decreases routes@.len() - i,
    {
        let ghost before = lines@;
        lines.push(
            "  profile=".to_owned().concat(routes[i].profile.as_str()).concat(" path=").concat(
                routes[i].path.as_str(),
            ).concat(" service=").concat(routes[i].service.as_str()),
        );
        assert forall|j: int| 0 <= j < i + 1 implies (#[trigger] lines@[j + 1])@ == route_line(
            routes@[j]@,
        ) by {
            if j < i {
                assert(lines@[j + 1] == before[j + 1]);
            }
        }
        i += 1;
    }
    assert forall|k: int| 0 <= k < lines@.len() implies chars::texts(lines@)[k] == routes_lines(
        all,
    )[k] by {
        if k > 0 {
            assert(lines@[(k - 1) + 1]@ == route_line(routes@[k - 1]@));
        }
    }
    assert(chars::texts(lines@) =~= routes_lines(all));
    lines
}

/// What is said where the route profiles were written.
pub fn routes_written(config_path: &str) -> (r: String)
    ensures
        r@ == "Route profiles written to "@ + config_path@,
{
    "Route profiles written to ".to_owned().concat(config_path)
}

/// What is said of a protection that was changed.
pub open spec fn protection_lines(protection: ProtectionModel) -> Seq<Seq<char>> {
    seq![
        "Updated protection defaults:"@,
        "  expires_in="@ + protection.expires_in,
        "  access_mode="@ + protection.access_mode,
        "  share_token="@ + protection.share_token,
        "  warn_on_sensitive_ports="@ + if protection.warn_on_sensitive_ports {
            "true"@
        } else {
            "false"@
        },
    ]
}

/// What is said of a protection that was changed.
pub fn protection_report(protection: &Protection) -> (r: Vec<String>)
    ensures
        chars::texts(r@) == protection_lines(protection@),
{
    let flag = if protection.warn_on_sensitive_ports {
        "true"
    } else {
        "false"
    };
    let lines = vec![
        "Updated protection defaults:".to_owned(),
        "  expires_in=".to_owned().concat(protection.expires_in.as_str()),
        "  access_mode=".to_owned().concat(protection.access_mode.as_str()),
        "  share_token=".to_owned().concat(protection.share_token.as_str()),
        "  warn_on_sensitive_ports=".to_owned().concat(flag),
    ];
    assert(chars::texts(lines@) =~= protection_lines(protection@));
    lines
}

/// A row of the list of shares.
pub open spec fn status_row(
    id: Seq<char>,
    target: Seq<char>,
    status: Seq<char>,
    access: Seq<char>,
    hits: Seq<char>,
    url: Seq<char>,
) -> Seq<char> {
    table::padded(id, 18) + " "@ + table::padded(target, 14) + " "@ + table::padded(status, 10)
        + " "@ + table::padded(access, 8) + " "@ + table::padded(hits, 8) + " "@ + url
}

/// A row of the list of shares.
fn write_status_row(
    id: &str,
    target: &str,
    status: &str,
    access: &str,
    hits: &str,
    url: &str,
) -> (r: String)
    ensures
        r@ == status_row(id@, target@, status@, access@, hits@, url@),
{
    pad(id, 18).concat(" ").concat(pad(target, 14).as_str()).concat(" ").concat(
        pad(status, 10).as_str(),
    ).concat(" ").concat(pad(access, 8).as_str()).concat(" ").concat(
        pad(hits, 8).as_str(),
    ).concat(" ").concat(url)
}

/// The head of the list of `count` shares, or that there is none.
pub fn status_head(count: usize) -> (r: String)
    ensures
        r@ == if count == 0 {
            "No share state found for this project."@
        } else {
            status_row("share_id"@, "target"@, "status"@, "access"@, "hits"@, "launch_url"@)
        },
{
    if count == 0 {
        "No share state found for this project.".to_owned()
    } else {
        write_status_row("share_id", "target", "status", "access", "hits", "launch_url")
    }
}

/// A process that may not be known.
pub open spec fn process_text(pid: Option<u32>) -> Seq<char> {
    match pid {
        Some(p) => "Some("@ + number::decimal(p as nat) + ")"@,
        None => "None"@,
    }
}

/// What the list says of a share, its requests and its visitors.
pub open spec fn status_lines(share: ActiveModel, hits: u64, visitors: Seq<Seq<char>>) -> Seq<
    Seq<char>,
> {
    seq![
        status_row(
            share.id,
            share.target_label,
            share.status,
            share.access_mode,
            number::decimal(hits as nat),
            state::launch_url_of(share),
        ),
    ] + (match share.expires_at {
        Some(end) => seq!["  expires_at="@ + number::decimal(end as nat)],
        None => seq![],
    }) + (if share.access_mode == "token"@ {
        seq!["  raw_url="@ + share.public_url]
    } else {
        seq![]
    }) + (if visitors.len() > 0 {
        seq!["  visitors="@ + search::joined(visitors, ", "@)]
    } else {
        seq![]
    }) + seq![
        "  proxy_port="@ + number::decimal(share.proxy_port as nat) + " pid="@ + number::decimal(
            share.pid as nat,
        ) + " cloudflared_pid="@ + process_text(share.cloudflared_pid),
    ]
}

/// What the list says of a share, its requests and its visitors.
pub fn status_entry(share: &ActiveShare, hits: u64, visitors: &Vec<String>) -> (r: Vec<String>)
    ensures
        chars::texts(r@) == status_lines(share@, hits, chars::texts(visitors@)),
{
    let mut lines: Vec<String> = Vec::new();
    lines.push(
        write_status_row(
            share.id.as_str(),
            share.target_label.as_str(),
            share.status.as_str(),
            share.access_mode.as_str(),
            to_decimal(hits).as_str(),
            share.launch_url().as_str(),
        ),
    );
    if let Some(end) = share.expires_at {
        lines.push("  expires_at=".to_owned().concat(to_decimal(end).as_str()));
    }
    if same(share.access_mode.as_str(), "token") {
        lines.push("  raw_url=".to_owned().concat(share.public_url.as_str()));
    }
    if visitors.len() > 0 {
        lines.push("  visitors=".to_owned().concat(join(visitors, ", ").as_str()));
    }
    let tunnel = match share.cloudflared_pid {
        Some(p) => "Some(".to_owned().concat(to_decimal(p as u64).as_str()).concat(")"),
        None => "None".to_owned(),
    };
    lines.push(
        "  proxy_port=".to_owned().concat(to_decimal(share.proxy_port as u64).as_str()).concat(
            " pid=",
        ).concat(to_decimal(share.pid as u64).as_str()).concat(" cloudflared_pid=").concat(
            tunnel.as_str(),
        ),
    );
    assert(chars::texts(lines@) =~= status_lines(share@, hits, chars::texts(visitors@)));
    lines
}

/// How the tool is used.
pub open spec fn help_lines() -> Seq<Seq<char>> {
    seq![
        "LocalToGlobal (ltg)"@,
        ""@,
        "Commands:"@,
        "  run                 Detect local services, recommend what to share, and sync config"@,
        "  share [target]      Share a detected service, port, or route profile"@,
        "  routes [show|init]  Inspect or scaffold route profiles"@,
        "  protect [flags]     Update protection defaults in .localtoglobal.yml"@,
        "  status              Show active shares, health, and access summary"@,
        ""@,
        "Share flags:"@,
        "  --expires-in <1h|30m|120>"@,
        "  --access-mode <token|public>"@,
        "  --share-token <value>"@,
        "  --public"@,
        "  --detach"@,
        ""@,
        "Protect flags:"@,
        "  --expires-in <value>"@,
        "  --access-mode <token|public>"@,
        "  --share-token <value>"@,
        "  --warn-sensitive | --no-warn-sensitive"@,
    ]
}

/// How the tool is used.
pub fn help_text() -> (r: Vec<String>)
    ensures
        chars::texts(r@) == help_lines(),
{
    let lines = vec![
        "LocalToGlobal (ltg)".to_owned(),
        "".to_owned(),
        "Commands:".to_owned(),
        "  run                 Detect local services, recommend what to share, and sync config".to_owned(),
        "  share [target]      Share a detected service, port, or route profile".to_owned(),
        "  routes [show|init]  Inspect or scaffold route profiles".to_owned(),
        "  protect [flags]     Update protection defaults in .localtoglobal.yml".to_owned(),
        "  status              Show active shares, health, and access summary".to_owned(),
        "".to_owned(),
        "Share flags:".to_owned(),
        "  --expires-in <1h|30m|120>".to_owned(),
        "  --access-mode <token|public>".to_owned(),
        "  --share-token <value>".to_owned(),
        "  --public".to_owned(),
        "  --detach".to_owned(),
        "".to_owned(),
        "Protect flags:".to_owned(),
        "  --expires-in <value>".to_owned(),
        "  --access-mode <token|public>".to_owned(),
        "  --share-token <value>".to_owned(),
        "  --warn-sensitive | --no-warn-sensitive".to_owned(),
    ];
    assert(chars::texts(lines@) =~= help_lines());
    lines
}

} // verus!
