//! What the answers on the command line tell.
use crate::cli::report;
use crate::config::{ProtectionModel, RouteConfigModel};
use crate::detect::classify::ServiceModel;
use crate::detect::table;
use crate::share::state;
use crate::share::state::ActiveModel;
use crate::text::facts;
use crate::text::number;
use crate::text::search;
use vstd::prelude::*;

verus! {

/// A text stands in any text that it is a part of.
proof fn lemma_part<T>(a: Seq<T>, p: Seq<T>, b: Seq<T>)
    ensures
        facts::occurs(a + p + b, p),
{
    let s = a + p + b;
    let n = a.len() as int;
    assert(s.subrange(n, n + p.len()) =~= p);
}

/// What stands in a text, or begins it, still does so when more follows; and what stands in that
/// stands in the whole.
proof fn lemma_extended(a: Seq<char>, b: Seq<char>)
    ensures
        forall|p: Seq<char>| #[trigger] facts::occurs(a, p) ==> facts::occurs(a + b, p),
        forall|p: Seq<char>| #[trigger] facts::occurs(b, p) ==> facts::occurs(a + b, p),
        forall|p: Seq<char>| #[trigger] search::begins(a, p) ==> search::begins(a + b, p),
        search::ends(a + b, b),
        facts::occurs(a + b, b),
{
    let s = a + b;
    let n = a.len() as int;
    assert forall|p: Seq<char>| #[trigger] facts::occurs(a, p) implies facts::occurs(s, p) by {
        let i = choose|i: int|
            0 <= i && i + p.len() <= a.len() && #[trigger] a.subrange(i, i + p.len()) == p;
        assert(s.subrange(i, i + p.len()) =~= a.subrange(i, i + p.len()));
    }
    assert forall|p: Seq<char>| #[trigger] facts::occurs(b, p) implies facts::occurs(s, p) by {
        let i = choose|i: int|
            0 <= i && i + p.len() <= b.len() && #[trigger] b.subrange(i, i + p.len()) == p;
        assert(s.subrange(n + i, n + i + p.len()) =~= b.subrange(i, i + p.len()));
    }
    assert forall|p: Seq<char>| #[trigger] search::begins(a, p) implies search::begins(s, p) by {
        assert(s.take(p.len() as int) =~= a.take(p.len() as int));
    }
    assert(s.skip(s.len() - b.len()) =~= b);
    assert(s.subrange(n, n + b.len()) =~= b);
}

/// Filling up adds blanks behind a text, up to the width, and takes nothing away.
pub proof fn filling_up_adds_blanks(s: Seq<char>, width: nat)
    ensures
        ({
            let p = table::padded(s, width);
            &&& p.len() >= width && p.len() >= s.len()
            &&& p.len() == width || p.len() == s.len()
            &&& p.take(s.len() as int) == s
            &&& forall|i: int| s.len() <= i < p.len() ==> #[trigger] p[i] == ' '
        }),
{
    assert(table::padded(s, width).take(s.len() as int) =~= s);
}

proof fn lemma_padded(s: Seq<char>, width: nat)
    ensures
        facts::occurs(table::padded(s, width), s),
        search::begins(table::padded(s, width), s),
{
    filling_up_adds_blanks(s, width);
    let p = table::padded(s, width);
    let at: int = 0;
    assert(p.subrange(at, at + s.len()) =~= s);
}

/// The list of services has a line on top and a row for each service, in order; a row tells the
/// number of the service, counted from one, its name, port, role, framework and score, and ends in
/// the note on it.
pub proof fn every_service_has_its_row(services: Seq<ServiceModel>, i: int)
    requires
        0 <= i < services.len(),
    ensures
        ({
            let lines = table::table_lines(services);
            let s = services[i];
            let row = lines[i + 1];
            &&& lines.len() == services.len() + 1
            &&& search::begins(row, number::decimal((i + 1) as nat))
            &&& facts::occurs(row, s.name) && facts::occurs(row, s.role)
            &&& facts::occurs(row, s.framework)
            &&& facts::occurs(row, number::decimal(s.port as nat))
            &&& facts::occurs(row, number::signed_decimal(s.score))
            &&& search::ends(row, table::note_on(s))
        }),
{
    let s = services[i];
    let n = table::padded(number::decimal((i + 1) as nat), 4);
    let name = table::padded(s.name, 12);
    let port = table::padded(number::decimal(s.port as nat), 6);
    let role = table::padded(s.role, 10);
    let framework = table::padded(s.framework, 12);
    let score = table::padded(number::signed_decimal(s.score), 7);
    let sp = " "@;
    lemma_padded(number::decimal((i + 1) as nat), 4);
    lemma_padded(s.name, 12);
    lemma_padded(number::decimal(s.port as nat), 6);
    lemma_padded(s.role, 10);
    lemma_padded(s.framework, 12);
    lemma_padded(number::signed_decimal(s.score), 7);
    assert(table::table_lines(services)[i + 1] == table::service_row(i, s));
    lemma_extended(n, sp);
    lemma_extended(n + sp, name);
    lemma_extended(n + sp + name, sp);
    lemma_extended(n + sp + name + sp, port);
    lemma_extended(n + sp + name + sp + port, sp);
    lemma_extended(n + sp + name + sp + port + sp, role);
    lemma_extended(n + sp + name + sp + port + sp + role, sp);
    let r = n + sp + name + sp + port + sp + role + sp;
    lemma_extended(r, framework);
    lemma_extended(r + framework, sp);
    lemma_extended(r + framework + sp, score);
    lemma_extended(r + framework + sp + score, sp);
    lemma_extended(r + framework + sp + score + sp, table::note_on(s));
}

/// The note on a service is a warning where there is a risk, with its reason, or no HTTP, and else
/// its process.
pub proof fn notes_warn_of_risks(s: ServiceModel)
    ensures
        s.risk_reason is Some ==> table::note_on(s) == "warning: "@ + s.risk_reason->0,
        s.risk_reason is None && !s.http_ready ==> table::note_on(s) == "warning: not http"@,
        s.risk_reason is None && s.http_ready ==> table::note_on(s) == "process: "@
            + s.process_name,
        table::table_lines(seq![]).len() == 1,
{
}

/// What is recommended is told with its name, its port, its role and its framework, and a warning if
/// it is risky; and where the configuration was written to is told last.
pub proof fn recommendations_name_the_service(best: Option<ServiceModel>, config_path: Seq<char>)
    ensures
        ({
            let lines = report::run_lines(best, config_path);
            &&& lines.len() >= 3 && search::ends(lines.last(), config_path)
            &&& best matches Some(s) ==> {
                &&& facts::occurs(lines[1], s.name) && facts::occurs(lines[1], s.role)
                &&& facts::occurs(lines[1], s.framework)
                &&& facts::occurs(lines[1], number::decimal(s.port as nat))
                &&& lines.len() == if s.risky {
                    4int
                } else {
                    3
                }
                &&& s.risky && s.risk_reason is Some ==> search::ends(lines[2], s.risk_reason->0)
            }
        }),
{
    let last = "Project config synced to "@ + config_path;
    assert(last.skip(last.len() - config_path.len()) =~= config_path);
    if let Some(s) = best {
        let port = number::decimal(s.port as nat);
        let a = "Recommended share target: "@;
        let f = ", framework "@;
        let r = ", role "@;
        let p = " (port "@;
        let e = ")"@;
        let line = a + s.name + p + port + r + s.role + f + s.framework + e;
        assert(report::run_lines(best, config_path)[1] == line);
        assert(line =~= a + s.name + (p + port + r + s.role + f + s.framework + e));
        assert(line =~= (a + s.name + p) + port + (r + s.role + f + s.framework + e));
        assert(line =~= (a + s.name + p + port + r) + s.role + (f + s.framework + e));
        lemma_part(a, s.name, p + port + r + s.role + f + s.framework + e);
        lemma_part(a + s.name + p, port, r + s.role + f + s.framework + e);
        lemma_part(a + s.name + p + port + r, s.role, f + s.framework + e);
        lemma_part(a + s.name + p + port + r + s.role + f, s.framework, e);
        if s.risky && s.risk_reason is Some {
            let w = "Warning: "@ + s.risk_reason->0;
            assert(w.skip(w.len() - s.risk_reason->0.len()) =~= s.risk_reason->0);
        }
    }
}

/// What is said of a share that is up begins with the URL to hand out; it tells the target, the mode
/// and the id, and of the token and the end of the share exactly what there is.
pub proof fn ready_shares_are_told_with_their_url(share: ActiveModel, detach: bool)
    ensures
        ({
            let lines = report::share_lines(share, detach);
            let token = if share.share_token is Some {
                3int
            } else {
                0
            };
            let end = if share.expires_at is Some {
                1int
            } else {
                0
            };
            &&& lines.len() == 4 + token + end + if detach {
                0int
            } else {
                1
            }
            &&& search::ends(lines[0], state::launch_url_of(share))
            &&& facts::occurs(lines[1], share.target_label)
            &&& facts::occurs(lines[1], share.target_description)
            &&& search::ends(lines[2], share.access_mode)
            &&& share.share_token matches Some(t) ==> search::ends(lines[3], t) && search::ends(
                lines[4],
                share.public_url,
            ) && facts::occurs(lines[5], t)
            &&& share.expires_at matches Some(t) ==> search::ends(
                lines[3 + token],
                number::decimal(t as nat),
            )
            &&& search::ends(lines[3 + token + end], share.id)
        }),
{
    lemma_ending("Share ready: "@, state::launch_url_of(share));
    lemma_ending("Access mode: "@, share.access_mode);
    lemma_ending("Share id: "@, share.id);
    let d = share.target_description;
    lemma_part("Target: "@, share.target_label, " ("@ + d + ")"@);
    assert("Target: "@ + share.target_label + (" ("@ + d + ")"@) =~= "Target: "@
        + share.target_label + " ("@ + d + ")"@);
    lemma_part("Target: "@ + share.target_label + " ("@, d, ")"@);
    if let Some(t) = share.share_token {
        lemma_ending("Share token: "@, t);
        lemma_ending("Raw URL: "@, share.public_url);
        lemma_part(
            "Tip: send header `X-LTG-Token: "@,
            t,
            "` if you cannot use query params."@,
        );
    }
    if let Some(t) = share.expires_at {
        lemma_ending("Expires at: "@, number::decimal(t as nat));
    }
}

proof fn lemma_ending(a: Seq<char>, b: Seq<char>)
    ensures
        search::ends(a + b, b),
{
    assert((a + b).skip((a + b).len() - b.len()) =~= b);
}

/// Every route of the profiles is listed, in order, with its profile, its path and its service.
pub proof fn every_route_is_listed(routes: Seq<RouteConfigModel>, i: int)
    requires
        0 <= i < routes.len(),
    ensures
        ({
            let lines = report::routes_lines(routes);
            &&& lines.len() == routes.len() + 1
            &&& facts::occurs(lines[i + 1], routes[i].profile)
            &&& facts::occurs(lines[i + 1], routes[i].path)
            &&& search::ends(lines[i + 1], routes[i].service)
        }),
{
    let r = routes[i];
    let line = report::route_line(r);
    assert(report::routes_lines(routes)[i + 1] == line);
    lemma_part("  profile="@, r.profile, " path="@ + r.path + " service="@ + r.service);
    assert(line =~= "  profile="@ + r.profile + (" path="@ + r.path + " service="@ + r.service));
    lemma_part("  profile="@ + r.profile + " path="@, r.path, " service="@ + r.service);
    assert(line =~= "  profile="@ + r.profile + " path="@ + r.path + (" service="@ + r.service));
    lemma_ending("  profile="@ + r.profile + " path="@ + r.path + " service="@, r.service);
}

/// What is said of a protection tells each of its settings.
pub proof fn protections_are_told_whole(p: ProtectionModel)
    ensures
        ({
            let lines = report::protection_lines(p);
            &&& lines.len() == 5
            &&& search::ends(lines[1], p.expires_in)
            &&& search::ends(lines[2], p.access_mode)
            &&& search::ends(lines[3], p.share_token)
            &&& p.warn_on_sensitive_ports ==> search::ends(lines[4], "true"@)
            &&& !p.warn_on_sensitive_ports ==> search::ends(lines[4], "false"@)
        }),
{
    lemma_ending("  expires_in="@, p.expires_in);
    lemma_ending("  access_mode="@, p.access_mode);
    lemma_ending("  share_token="@, p.share_token);
    lemma_ending("  warn_on_sensitive_ports="@, "true"@);
    lemma_ending("  warn_on_sensitive_ports="@, "false"@);
}

/// Whether a row tells of a share and its requests.
pub open spec fn tells_of_share(row: Seq<char>, share: ActiveModel, hits: u64) -> bool {
    &&& search::begins(row, share.id)
    &&& facts::occurs(row, share.target_label)
    &&& facts::occurs(row, share.status)
    &&& facts::occurs(row, share.access_mode)
    &&& facts::occurs(row, number::decimal(hits as nat))
    &&& search::ends(row, state::launch_url_of(share))
}

proof fn lemma_status_row(share: ActiveModel, hits: u64)
    ensures
        tells_of_share(
            report::status_row(
                share.id,
                share.target_label,
                share.status,
                share.access_mode,
                number::decimal(hits as nat),
                state::launch_url_of(share),
            ),
            share,
            hits,
        ),
{
    let id = table::padded(share.id, 18);
    let label = table::padded(share.target_label, 14);
    let status = table::padded(share.status, 10);
    let mode = table::padded(share.access_mode, 8);
    let count = table::padded(number::decimal(hits as nat), 8);
    let sp = " "@;
    lemma_padded(share.id, 18);
    lemma_padded(share.target_label, 14);
    lemma_padded(share.status, 10);
    lemma_padded(share.access_mode, 8);
    lemma_padded(number::decimal(hits as nat), 8);
    lemma_extended(id, sp);
    lemma_extended(id + sp, label);
    lemma_extended(id + sp + label, sp);
    lemma_extended(id + sp + label + sp, status);
    lemma_extended(id + sp + label + sp + status, sp);
    let r = id + sp + label + sp + status + sp;
    lemma_extended(r, mode);
    lemma_extended(r + mode, sp);
    lemma_extended(r + mode + sp, count);
    lemma_extended(r + mode + sp + count, sp);
    lemma_extended(r + mode + sp + count + sp, state::launch_url_of(share));
}

/// The entry of a share in the list begins with a row that tells its id, its target, its status, its
/// mode and its requests, and ends in the URL to hand out; it ends with its port and its processes.
pub proof fn status_entries_tell_of_the_share(
    share: ActiveModel,
    hits: u64,
    visitors: Seq<Seq<char>>,
)
    ensures
        ({
            let lines = report::status_lines(share, hits, visitors);
            let end = if share.expires_at is Some {
                1int
            } else {
                0
            };
            let raw = if share.access_mode == "token"@ {
                1int
            } else {
                0
            };
            let seen = if visitors.len() > 0 {
                1int
            } else {
                0
            };
            &&& lines.len() == 2 + end + raw + seen
            &&& tells_of_share(lines[0], share, hits)
            &&& share.expires_at matches Some(t) ==> search::ends(
                lines[1],
                number::decimal(t as nat),
            )
            &&& raw == 1 ==> search::ends(lines[1 + end], share.public_url)
            &&& seen == 1 ==> search::ends(
                lines[1 + end + raw],
                search::joined(visitors, seq![',', ' ']),
            )
            &&& facts::occurs(lines.last(), number::decimal(share.proxy_port as nat))
            &&& facts::occurs(lines.last(), number::decimal(share.pid as nat))
        }),
{
    reveal_strlit(", ");
    assert(", "@ =~= seq![',', ' ']);
    lemma_status_row(share, hits);
    if let Some(t) = share.expires_at {
        lemma_ending("  expires_at="@, number::decimal(t as nat));
    }
    lemma_ending("  raw_url="@, share.public_url);
    lemma_ending("  visitors="@, search::joined(visitors, ", "@));
    let port = number::decimal(share.proxy_port as nat);
    let pid = number::decimal(share.pid as nat);
    let tail = " cloudflared_pid="@ + report::process_text(share.cloudflared_pid);
    let a = "  proxy_port="@;
    let last = a + port + " pid="@ + pid + " cloudflared_pid="@ + report::process_text(
        share.cloudflared_pid,
    );
    assert(report::status_lines(share, hits, visitors).last() == last);
    assert(last =~= a + port + (" pid="@ + pid + tail));
    assert(last =~= (a + port + " pid="@) + pid + tail);
    lemma_part(a, port, " pid="@ + pid + tail);
    lemma_part(a + port + " pid="@, pid, tail);
}

/// Whether a line of the help tells of a word: the line starts with it, two blanks in front of it.
pub open spec fn is_told_of(lines: Seq<Seq<char>>, word: Seq<char>) -> bool {
    exists|i: int|
        0 <= i < lines.len() && search::begins(#[trigger] lines[i], seq![' ', ' '] + word)
}

proof fn lemma_told_of(lines: Seq<Seq<char>>, i: int, word: Seq<char>)
    requires
        0 <= i < lines.len(),
        lines[i].len() >= 2 + word.len(),
        lines[i][0] == ' ' && lines[i][1] == ' ',
        forall|j: int| 0 <= j < word.len() ==> lines[i][j + 2] == #[trigger] word[j],
    ensures
        is_told_of(lines, word),
{
    let front = seq![' ', ' '] + word;
    assert(lines[i].take(front.len() as int) =~= front);
    assert(search::begins(lines[i], seq![' ', ' '] + word));
}

/// The help tells of every command that is there for users, and of every flag.
pub proof fn help_tells_of_every_command()
    ensures
        is_told_of(report::help_lines(), "run"@),
        is_told_of(report::help_lines(), "share"@),
        is_told_of(report::help_lines(), "routes"@),
        is_told_of(report::help_lines(), "protect"@),
        is_told_of(report::help_lines(), "status"@),
        is_told_of(report::help_lines(), "--expires-in"@),
        is_told_of(report::help_lines(), "--access-mode"@),
        is_told_of(report::help_lines(), "--share-token"@),
        is_told_of(report::help_lines(), "--public"@),
        is_told_of(report::help_lines(), "--detach"@),
        is_told_of(report::help_lines(), "--warn-sensitive"@),
{
    let lines = report::help_lines();
    reveal_strlit("run");
    reveal_strlit("  run                 Detect local services, recommend what to share, and sync config");
    lemma_told_of(lines, 3, "run"@);
    reveal_strlit("share");
    reveal_strlit("  share [target]      Share a detected service, port, or route profile");
    lemma_told_of(lines, 4, "share"@);
    reveal_strlit("routes");
    reveal_strlit("  routes [show|init]  Inspect or scaffold route profiles");
    lemma_told_of(lines, 5, "routes"@);
    reveal_strlit("protect");
    reveal_strlit("  protect [flags]     Update protection defaults in .localtoglobal.yml");
    lemma_told_of(lines, 6, "protect"@);
    reveal_strlit("status");
    reveal_strlit("  status              Show active shares, health, and access summary");
    lemma_told_of(lines, 7, "status"@);
    reveal_strlit("--expires-in");
    reveal_strlit("  --expires-in <1h|30m|120>");
    lemma_told_of(lines, 10, "--expires-in"@);
    reveal_strlit("--access-mode");
    reveal_strlit("  --access-mode <token|public>");
    lemma_told_of(lines, 11, "--access-mode"@);
    reveal_strlit("--share-token");
    reveal_strlit("  --share-token <value>");
    lemma_told_of(lines, 12, "--share-token"@);
    reveal_strlit("--public");
    reveal_strlit("  --public");
    lemma_told_of(lines, 13, "--public"@);
    reveal_strlit("--detach");
    reveal_strlit("  --detach");
    lemma_told_of(lines, 14, "--detach"@);
    reveal_strlit("--warn-sensitive");
    reveal_strlit("  --warn-sensitive | --no-warn-sensitive");
    lemma_told_of(lines, 20, "--warn-sensitive"@);
}

} // verus!
