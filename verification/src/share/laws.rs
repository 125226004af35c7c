//! What holds of a share from its start to its record.
use crate::cli::args;
use crate::cli::args::CommandModel;
use crate::cli::choice;
use crate::config::{ConfigModel, ProtectionModel};
use crate::detect::classify::ServiceModel;
use crate::detect::listeners::ListenerModel;
use crate::detect::rank;
use crate::order;
use crate::proxy::guard;
use crate::proxy::guard::GuardModel;
use crate::proxy::request::HeadModel;
use crate::proxy::tokens;
use crate::routes;
use crate::share::fields;
use crate::share::protection;
use crate::share::state;
use crate::share::state::ActiveModel;
use crate::share::status;
use crate::share::status::Probe;
use crate::share::target;
use crate::share::target::TargetModel;
use crate::share::worker;
use crate::share::worker::{
    InternalModel, Look, SupervisionModel, TunnelStateModel, WorkerNextModel,
};
use crate::text::class;
use crate::text::class::CharClass;
use crate::text::laws;
use crate::text::number;
use crate::text::search;
use vstd::prelude::*;

verus! {

/// The URL that is handed out presents the token: a request for it has the token in its query.
/// A token with an ampersand in it does not survive there.
pub proof fn launch_url_presents_token(share: ActiveModel)
    requires
        share.access_mode == "token"@,
        share.share_token matches Some(t) && laws::lacks(t, '&'),
    ensures
        tokens::query_token(tokens::uri_parts(state::launch_url_of(share)).1) == share.share_token,
{
    reveal_strlit("&");
    reveal_strlit("?");
    reveal_strlit("ltg_token=");
    reveal_strlit("ltg_token");
    let t = share.share_token->0;
    let url = share.public_url;
    let pair = "ltg_token="@ + t;
    let k = CharClass::Char('?');
    assert(pair =~= "ltg_token"@ + seq!['='] + t);
    laws::split_once_parts("ltg_token"@, '=', t);
    assert(tokens::is_token_pair(pair));
    assert(laws::lacks(pair, '&')) by {
        assert forall|i: int| 0 <= i < pair.len() implies #[trigger] pair[i] != '&' by {
            if i >= 10 {
                assert(pair[i] == t[i - 10]);
            }
        }
    }
    laws::split_whole(pair, '&');
    class::lemma_class_index(url, k);
    let at = class::class_index(url, k);
    if url.contains('?') {
        let i = choose|i: int| 0 <= i < url.len() && url[i] == '?';
        if at == url.len() {
            assert(!k.has(url[i]));
        }
        let front = url.take(at);
        let back = url.skip(at + 1);
        assert(laws::lacks(front, '?')) by {
            assert forall|j: int| 0 <= j < front.len() implies #[trigger] front[j] != '?' by {
                assert(!k.has(url[j]));
            }
        }
        let query = back + seq!['&'] + pair;
        assert(state::launch_url_of(share) =~= front + seq!['?'] + query);
        laws::split_once_parts(front, '?', query);
        laws::split_appended(back, '&', pair);
        let pairs = class::split(query, CharClass::Char('&'));
        assert(pairs.last() == pair);
    } else {
        assert(laws::lacks(url, '?')) by {
            assert forall|j: int| 0 <= j < url.len() implies #[trigger] url[j] != '?' by {}
        }
        assert(state::launch_url_of(share) =~= url + seq!['?'] + pair);
        laws::split_once_parts(url, '?', pair);
        assert(class::split(pair, CharClass::Char('&')).last() == pair);
    }
}

/// Whoever follows the URL that is handed out gets in: the guard admits a request with its query
/// and no token of its own in a header, and hands out its cookie.
pub proof fn launch_url_is_admitted(share: ActiveModel, guard: GuardModel, head: HeadModel)
    requires
        share.access_mode == "token"@,
        share.share_token matches Some(t) && laws::lacks(t, '&'),
        guard.access_mode == share.access_mode,
        guard.share_token == share.share_token,
        head.fields.header_token is None,
        tokens::uri_parts(head.uri).1 == tokens::uri_parts(state::launch_url_of(share)).1,
    ensures
        guard::is_admitted(head, guard),
        guard::earns_cookie(head, guard),
{
    launch_url_presents_token(share);
}

/// A URL of a share that asks for no token is the bare public one.
pub proof fn launch_url_without_token(share: ActiveModel)
    requires
        share.access_mode != "token"@ || share.share_token is None,
    ensures
        state::launch_url_of(share) == share.public_url,
{
}

/// A worker routes requests as its target says: the routes that it reads from its command line
/// send every path where those of the target send it. A path with a comma or an equals sign in it
/// cannot be written there.
pub proof fn worker_routes_as_targeted(routes: Seq<(Seq<char>, u16)>, path: Seq<char>)
    requires
        forall|i: int|
            0 <= i < routes.len() ==> laws::lacks((#[trigger] routes[i]).0, '=') && laws::lacks(
                routes[i].0,
                ',',
            ),
    ensures
        routes::routes_named(routes::routes_text(routes)) matches Ok(named) && match (
            routes::best_route(path, routes),
            routes::best_route(path, named),
        ) {
            (Some(i), Some(j)) => routes[i] == named[j],
            (None, None) => true,
            _ => false,
        },
{
    routes::route_specification_reads_back(routes);
    routes::sorting_keeps_the_best_route(path, routes);
}

/// What is shared where nothing is named is not risky: it is the first of the services that are
/// offered.
pub proof fn unnamed_target_is_not_risky(
    config: ConfigModel,
    found: Seq<(ListenerModel, bool)>,
    user: Seq<char>,
    package_json: bool,
)
    requires
        config.default_target == "auto"@,
    ensures
        target::target_for(
            None,
            config,
            order::sorted(rank::offers(found, user, package_json), rank::offer_order()),
        ) matches Ok(t) ==> !t.risky,
{
    let listed = order::sorted(rank::offers(found, user, package_json), rank::offer_order());
    rank::offered_services_are_shareable_and_ranked(found, user, package_json);
    if listed.len() > 0 {
        assert(!listed[0].risky);
    }
}

/// A risky target is shared only after a yes, if warnings are on; any other target that was found
/// is shared whatever the answer is.
pub proof fn risky_targets_are_confirmed(
    selector: Option<Seq<char>>,
    config: ConfigModel,
    detected: Seq<ServiceModel>,
    answer: Seq<char>,
)
    ensures
        target::target_for(selector, config, detected) matches Ok(t) ==> {
            let warn = config.protection.warn_on_sensitive_ports;
            choice::settled(t, warn, answer) == if warn && t.risky && !choice::is_yes(answer) {
                Err::<(), Seq<char>>("share cancelled"@)
            } else {
                Ok(())
            }
        },
{
    target::resolved_target_has_a_route(selector, config, detected);
}

/// A share lasts as long as its duration says, from the second in which it is started on; without
/// a duration it does not run out.
pub proof fn share_lasts_its_duration(now: u64, expires_in: Seq<char>, t: u64)
    requires
        protection::expiry_in_range(now, expires_in),
    ensures
        expires_in.len() == 0 ==> protection::expiry(now, expires_in) == Ok::<
            Option<nat>,
            Seq<char>,
        >(None) && !guard::is_expired(t, None),
        expires_in.len() > 0 ==> (protection::duration_seconds(expires_in) matches Some(n) ==> {
            &&& protection::expiry(now, expires_in) == Ok::<Option<nat>, Seq<char>>(
                Some(now as nat + n),
            )
            &&& guard::is_expired(t, Some((now + n) as u64)) <==> t - now >= n
        }),
{
}

/// A share that has run out stays so: from then on its worker stops it and it is shown as expired,
/// whatever its processes do.
pub proof fn expiry_is_final(
    share: ActiveModel,
    now: u64,
    later: u64,
    process: TunnelStateModel,
    probe: Probe,
)
    requires
        guard::is_expired(now, share.expires_at),
        now <= later,
    ensures
        guard::is_expired(later, share.expires_at),
        worker::supervised(share, later, process) == (
            SupervisionModel {
                stop_guard: true,
                kill_tunnel: true,
                record: true,
                next: WorkerNextModel::End,
            },
            "expired"@,
        ),
        status::refreshed(share, later, probe).status == "expired"@,
{
}

/// What holds of every run of a worker, from the moment its share is up, whatever it sees of the
/// clock and of the tunnel:
/// - everything that it records is the share that it was told of, under the same URL, and differs
///   in its status alone;
/// - all but the last record are active;
/// - it goes on exactly as long as the share has not run out and the tunnel is seen running, and
///   records the share at every look;
/// - if it ends well, the guard has been told to shut down, and the last record is either expired,
///   with the end of the share reached and the tunnel killed, or stopped with the status that the
///   tunnel has exited with;
/// - if it gives up, the tunnel could not be asked, and nothing but an active share was recorded.
pub proof fn worker_run_records_its_share(
    told: InternalModel,
    public_url: Seq<char>,
    started_at: u64,
    pid: u32,
    cloudflared_pid: u32,
    proxy_port: u16,
    looks: Seq<Look>,
)
    ensures
        ({
            let share = worker::started_share(
                told,
                public_url,
                started_at,
                pid,
                cloudflared_pid,
                proxy_port,
            );
            let run = worker::run_after(share, looks);
            let last = run.recorded.last();
            &&& run.recorded.len() > 0
            &&& forall|i: int|
                0 <= i < run.recorded.len() ==> (#[trigger] run.recorded[i]) == (ActiveModel {
                    status: run.recorded[i].status,
                    ..share
                })
            &&& forall|i: int|
                0 <= i < run.recorded.len() - 1 ==> (#[trigger] run.recorded[i]).status
                    == "active"@
            &&& run.end is None <==> forall|i: int|
                0 <= i < looks.len() ==> !guard::is_expired(
                    (#[trigger] looks[i]).now,
                    told.expires_at,
                ) && looks[i].process is Running
            &&& run.seen matches Some(look) ==> looks.contains(look)
            &&& match run.end {
                None => last.status == "active"@ && run.recorded.len() == looks.len() + 1
                    && !run.guard_stopped && !run.tunnel_killed,
                Some(Ok(())) => run.guard_stopped && run.seen is Some && {
                    let look = run.seen->0;
                    if guard::is_expired(look.now, told.expires_at) {
                        last.status == "expired"@ && run.tunnel_killed
                    } else {
                        &&& look.process matches TunnelStateModel::Exited(status) && last.status
                            == "stopped("@ + status + ")"@
                        &&& !run.tunnel_killed
                    }
                },
                Some(Err(e)) => {
                    &&& last.status == "active"@ && !run.guard_stopped && !run.tunnel_killed
                    &&& run.seen matches Some(look) && look.process matches TunnelStateModel::Unknown(
                        error,
                    ) && e == "failed to check cloudflared: "@ + error
                },
            }
        }),
    decreases looks.len(),
{
    let share = worker::started_share(
        told,
        public_url,
        started_at,
        pid,
        cloudflared_pid,
        proxy_port,
    );
    if looks.len() > 0 {
        let front = looks.drop_last();
        worker_run_records_its_share(
            told,
            public_url,
            started_at,
            pid,
            cloudflared_pid,
            proxy_port,
            front,
        );
        let before = worker::run_after(share, front);
        let run = worker::run_after(share, looks);
        assert(looks.contains(looks.last()));
        assert forall|look: Look| front.contains(look) implies looks.contains(look) by {
            let i = choose|i: int| 0 <= i < front.len() && front[i] == look;
            assert(looks[i] == look);
        }
        assert(forall|i: int| 0 <= i < front.len() ==> #[trigger] looks[i] == front[i]);
        if before.end is Some {
            let bad = choose|i: int|
                0 <= i < front.len() && !(!guard::is_expired(
                    (#[trigger] front[i]).now,
                    told.expires_at,
                ) && front[i].process is Running);
            assert(looks[bad] == front[bad]);
        } else {
            assert(before.share == before.recorded.last()) by {
                lemma_run_share(share, front);
            }
            assert forall|i: int| 0 <= i < run.recorded.len() implies (#[trigger] run.recorded[i])
                == (ActiveModel { status: run.recorded[i].status, ..share }) by {
                if i < before.recorded.len() {
                    assert(run.recorded[i] == before.recorded[i]);
                }
            }
            assert forall|i: int| 0 <= i < run.recorded.len() - 1 implies (
            #[trigger] run.recorded[i]).status == "active"@ by {
                assert(run.recorded[i] == before.recorded[i]);
            }
            assert forall|i: int| 0 <= i < front.len() implies !guard::is_expired(
                (#[trigger] looks[i]).now,
                told.expires_at,
            ) && looks[i].process is Running by {
                assert(looks[i] == front[i]);
            }
            assert(looks[looks.len() - 1] == looks.last());
        }
    }
}

/// The share of a run that goes on is what was recorded of it last.
proof fn lemma_run_share(share: ActiveModel, looks: Seq<Look>)
    ensures
        worker::run_after(share, looks).end is None ==> worker::run_after(share, looks).share
            == worker::run_after(share, looks).recorded.last(),
    decreases looks.len(),
{
    if looks.len() > 0 {
        lemma_run_share(share, looks.drop_last());
    }
}

/// Whether a value comes back as it is from a line that it is written to without escaping.
pub open spec fn is_plain(s: Seq<char>) -> bool {
    laws::is_line(s) && fields::unescaped(s) == s
}

/// Whether a value comes back as it is from a line that it is written to escaped.
pub open spec fn is_escapable(s: Seq<char>) -> bool {
    !fields::has_backslash_n(s) && !(s.len() > 0 && s.last() == '\r')
}

/// A text without backslashes is not changed by turning escapes back.
pub proof fn unescaping_needs_a_backslash(s: Seq<char>)
    requires
        laws::lacks(s, '\\'),
    ensures
        fields::unescaped(s) == s,
{
    reveal_strlit("\\n");
    reveal_strlit("\\\\");
    lemma_not_found(s, "\\n"@);
    lemma_not_found(s, "\\\\"@);
}

/// What begins with a character that a text lacks is not found in it.
proof fn lemma_not_found(s: Seq<char>, p: Seq<char>)
    requires
        p.len() > 0,
        laws::lacks(s, p[0]),
    ensures
        search::find(s, p) is None,
{
    search::lemma_find(s, p);
    if search::find(s, p) is Some {
        let i = search::find(s, p)->0;
        assert(s.skip(i).take(p.len() as int)[0] == s[i]);
    }
}

/// The pairs of a state file as they are read: key by key, the later value counting.
spec fn read_pairs(pairs: Seq<(Seq<char>, Seq<char>)>) -> Map<Seq<char>, Seq<char>>
    decreases pairs.len(),
{
    if pairs.len() == 0 {
        Map::empty()
    } else {
        read_pairs(pairs.drop_last()).insert(pairs.last().0, fields::unescaped(pairs.last().1))
    }
}

/// Whether a pair can be written to a line of its own.
spec fn pair_fits(pair: (Seq<char>, Seq<char>)) -> bool {
    laws::lacks(pair.0, '=') && laws::lacks(pair.0, '\n') && laws::is_line(pair.1)
}

/// What is written to a state file is what is read from it.
proof fn lemma_pairs_read_back(pairs: Seq<(Seq<char>, Seq<char>)>)
    requires
        forall|i: int| 0 <= i < pairs.len() ==> pair_fits(#[trigger] pairs[i]),
    ensures
        state::state_fields(class::lines(state::state_text(pairs))) == read_pairs(pairs),
        state::state_text(pairs).len() > 0 ==> state::state_text(pairs).last() == '\n',
    decreases pairs.len(),
{
    reveal_strlit("=");
    reveal_strlit("\n");
    if pairs.len() > 0 {
        let before = pairs.drop_last();
        let (key, value) = pairs.last();
        assert(pair_fits(pairs[pairs.len() - 1]));
        assert forall|i: int| 0 <= i < before.len() implies pair_fits(#[trigger] before[i]) by {
            assert(before[i] == pairs[i]);
        }
        lemma_pairs_read_back(before);
        let l = key + seq!['='] + value;
        let text = state::state_text(before);
        assert(state::state_text(pairs) =~= text + l + seq!['\n']);
        assert(laws::is_line(l)) by {
            assert forall|i: int| 0 <= i < l.len() implies #[trigger] l[i] != '\n' by {
                if i < key.len() {
                    assert(l[i] == key[i]);
                } else if i > key.len() {
                    assert(l[i] == value[i - key.len() - 1]);
                }
            }
            if value.len() > 0 {
                assert(l.last() == value.last());
            }
        }
        laws::lines_take_another(text, l);
        let lines = class::lines(text).push(l);
        assert(lines.drop_last() =~= class::lines(text));
        laws::split_once_parts(key, '=', value);
    }
}

/// Of keys that are all different each has its own value.
proof fn lemma_pair_value(pairs: Seq<(Seq<char>, Seq<char>)>, n: int)
    requires
        0 <= n < pairs.len(),
        forall|i: int, j: int|
            0 <= i < j < pairs.len() ==> (#[trigger] pairs[i]).0 != (#[trigger] pairs[j]).0,
    ensures
        fields::field(read_pairs(pairs), pairs[n].0) == Some(fields::unescaped(pairs[n].1)),
    decreases pairs.len(),
{
    let before = pairs.drop_last();
    if n < pairs.len() - 1 {
        assert forall|i: int, j: int| 0 <= i < j < before.len() implies (#[trigger] before[i]).0
            != (#[trigger] before[j]).0 by {
            assert(before[i] == pairs[i] && before[j] == pairs[j]);
        }
        lemma_pair_value(before, n);
        assert(before[n] == pairs[n]);
        assert(pairs[n].0 != pairs[pairs.len() - 1].0);
    }
}

/// A number that tells the keys of a state file apart: their lengths, where these differ.
spec fn key_code(key: Seq<char>) -> int {
    if key.len() == 10 {
        if key[0] == 'e' {
            100
        } else if key[0] == 's' {
            101
        } else if key[1] == 'u' {
            102
        } else {
            103
        }
    } else if key.len() == 11 {
        if key[0] == 'a' {
            104
        } else {
            105
        }
    } else {
        key.len() as int
    }
}

/// The keys of a state file are all different, and each fits in front of an equals sign.
proof fn lemma_keys(share: ActiveModel)
    ensures
        forall|i: int, j: int|
            0 <= i < j < 12 ==> (#[trigger] state::state_pairs(share)[i]).0 != (
            #[trigger] state::state_pairs(share)[j]).0,
        forall|i: int|
            0 <= i < 12 ==> laws::lacks((#[trigger] state::state_pairs(share)[i]).0, '=')
                && laws::lacks(state::state_pairs(share)[i].0, '\n'),
{
    reveal_strlit("id");
    reveal_strlit("target_label");
    reveal_strlit("target_description");
    reveal_strlit("public_url");
    reveal_strlit("access_mode");
    reveal_strlit("share_token");
    reveal_strlit("started_at");
    reveal_strlit("expires_at");
    reveal_strlit("pid");
    reveal_strlit("cloudflared_pid");
    reveal_strlit("status");
    reveal_strlit("proxy_port");
    let pairs = state::state_pairs(share);
    assert(pairs.len() == 12);
    let codes: Seq<int> = seq![2, 12, 18, 102, 104, 105, 101, 100, 3, 15, 6, 103];
    assert(key_code(pairs[0].0) == codes[0]);
    assert(key_code(pairs[1].0) == codes[1]);
    assert(key_code(pairs[2].0) == codes[2]);
    assert(key_code(pairs[3].0) == codes[3]);
    assert(key_code(pairs[4].0) == codes[4]);
    assert(key_code(pairs[5].0) == codes[5]);
    assert(key_code(pairs[6].0) == codes[6]);
    assert(key_code(pairs[7].0) == codes[7]);
    assert(key_code(pairs[8].0) == codes[8]);
    assert(key_code(pairs[9].0) == codes[9]);
    assert(key_code(pairs[10].0) == codes[10]);
    assert(key_code(pairs[11].0) == codes[11]);
    assert forall|i: int, j: int| 0 <= i < j < 12 implies (#[trigger] pairs[i]).0 != (
    #[trigger] pairs[j]).0 by {
        assert(key_code(pairs[i].0) == codes[i] && key_code(pairs[j].0) == codes[j]);
        assert(codes[i] != codes[j]);
    }
}

/// A number, or nothing, is a plain value, and reads back.
proof fn lemma_number_is_plain(n: Option<nat>)
    ensures
        is_plain(state::number_or_nothing(n)),
        number::decimal_value(state::number_or_nothing(n)) == n,
{
    let s = state::number_or_nothing(n);
    if n is Some {
        number::decimal_reads_back(n->0);
        assert forall|i: int| 0 <= i < s.len() implies #[trigger] s[i] != '\n' && s[i] != '\\'
            && s[i] != '\r' by {
            assert('0' <= s[i] <= '9');
        }
    }
    unescaping_needs_a_backslash(s);
}

/// What is written to a state file of a share is read back as the same share. The exceptions are
/// values that a line cannot hold: a line feed or a final carriage return in a value that is
/// written as it is, or escapes in it that reading would turn back; a backslash right before an
/// `n`, or a final carriage return, in a value that is escaped; and a token that is there but
/// empty.
pub proof fn state_reads_back(share: ActiveModel)
    requires
        is_plain(share.id),
        is_plain(share.public_url),
        is_plain(share.access_mode),
        share.share_token matches Some(t) ==> is_plain(t) && t.len() > 0,
        is_escapable(share.target_label),
        is_escapable(share.target_description),
        is_escapable(share.status),
    ensures
        state::share_in(state::state_contents(share)) == Ok::<ActiveModel, Seq<char>>(share),
{
    let pairs = state::state_pairs(share);
    lemma_keys(share);
    lemma_number_is_plain(Some(share.started_at as nat));
    lemma_number_is_plain(Some(share.pid as nat));
    lemma_number_is_plain(Some(share.proxy_port as nat));
    lemma_number_is_plain(None);
    if share.expires_at is Some {
        lemma_number_is_plain(Some(share.expires_at->0 as nat));
    }
    if share.cloudflared_pid is Some {
        lemma_number_is_plain(Some(share.cloudflared_pid->0 as nat));
    }
    fields::escaping_is_undone(share.target_label);
    fields::escaping_is_undone(share.target_description);
    fields::escaping_is_undone(share.status);
    fields::escaped_fits_on_a_line(share.target_label);
    fields::escaped_fits_on_a_line(share.target_description);
    fields::escaped_fits_on_a_line(share.status);
    unescaping_needs_a_backslash(Seq::<char>::empty());
    assert forall|i: int| 0 <= i < pairs.len() implies pair_fits(#[trigger] pairs[i]) by {}
    lemma_pairs_read_back(pairs);
    lemma_pair_value(pairs, 0);
    lemma_pair_value(pairs, 1);
    lemma_pair_value(pairs, 2);
    lemma_pair_value(pairs, 3);
    lemma_pair_value(pairs, 4);
    lemma_pair_value(pairs, 5);
    lemma_pair_value(pairs, 6);
    lemma_pair_value(pairs, 7);
    lemma_pair_value(pairs, 8);
    lemma_pair_value(pairs, 9);
    lemma_pair_value(pairs, 10);
    lemma_pair_value(pairs, 11);
}

/// One flag of a worker's command line, and the value behind it.
proof fn lemma_flag_step(
    args: Seq<Seq<char>>,
    known: Map<Seq<char>, Seq<char>>,
    name: Seq<char>,
    value: Seq<char>,
    rest: Seq<Seq<char>>,
)
    requires
        args == seq![seq!['-', '-'] + name, value] + rest,
        name.len() > 0,
        name[0] != '-',
    ensures
        worker::arg_fields(args, known) == worker::arg_fields(rest, known.insert(name, value)),
{
    reveal_strlit("--");
    let flag = seq!['-', '-'] + name;
    assert("--"@ =~= seq!['-', '-']);
    assert(flag.take(2) =~= seq!['-', '-']);
    assert(flag.skip(2) =~= name);
    assert(!search::begins(name, seq!['-', '-'])) by {
        if search::begins(name, seq!['-', '-']) {
            assert(name.take(2)[0] == '-');
        }
    }
    reveal_with_fuel(worker::flag_name, 2);
    assert(args.skip(2) =~= rest);
}

/// The flags of a worker's command line are dashes and names, and the names are all different.
proof fn lemma_flags()
    ensures
        "--project-root"@ == seq!['-', '-'] + "project-root"@,
        "project-root"@.len() == 12,
        "project-root"@[0] == 'p',
        "--share-id"@ == seq!['-', '-'] + "share-id"@,
        "share-id"@.len() == 8,
        "share-id"@[0] == 's',
        "--label"@ == seq!['-', '-'] + "label"@,
        "label"@.len() == 5,
        "label"@[0] == 'l',
        "--description"@ == seq!['-', '-'] + "description"@,
        "description"@.len() == 11,
        "description"@[0] == 'd',
        "--routes"@ == seq!['-', '-'] + "routes"@,
        "routes"@.len() == 6,
        "routes"@[0] == 'r',
        "--access-mode"@ == seq!['-', '-'] + "access-mode"@,
        "access-mode"@.len() == 11,
        "access-mode"@[0] == 'a',
        "--expires-at"@ == seq!['-', '-'] + "expires-at"@,
        "expires-at"@.len() == 10,
        "expires-at"@[0] == 'e',
        "--share-token"@ == seq!['-', '-'] + "share-token"@,
        "share-token"@.len() == 11,
        "share-token"@[0] == 's',
{
    reveal_strlit("--project-root");
    reveal_strlit("project-root");
    reveal_strlit("--share-id");
    reveal_strlit("share-id");
    reveal_strlit("--label");
    reveal_strlit("label");
    reveal_strlit("--description");
    reveal_strlit("description");
    reveal_strlit("--routes");
    reveal_strlit("routes");
    reveal_strlit("--access-mode");
    reveal_strlit("access-mode");
    reveal_strlit("--expires-at");
    reveal_strlit("expires-at");
    reveal_strlit("--share-token");
    reveal_strlit("share-token");
    assert("--project-root"@ =~= seq!['-', '-'] + "project-root"@);
    assert("--share-id"@ =~= seq!['-', '-'] + "share-id"@);
    assert("--label"@ =~= seq!['-', '-'] + "label"@);
    assert("--description"@ =~= seq!['-', '-'] + "description"@);
    assert("--routes"@ =~= seq!['-', '-'] + "routes"@);
    assert("--access-mode"@ =~= seq!['-', '-'] + "access-mode"@);
    assert("--expires-at"@ =~= seq!['-', '-'] + "expires-at"@);
    assert("--share-token"@ =~= seq!['-', '-'] + "share-token"@);
}

/// A worker's command line is one that serves a share, and it tells the worker what its share was
/// started with, whatever the values are:
/// in token mode with the token, if there is one, and in no other mode with any.
pub proof fn worker_line_reads_back(
    project_root: Seq<char>,
    share_id: Seq<char>,
    target: TargetModel,
    protection: ProtectionModel,
    expires_at: Option<u64>,
)
    ensures
        args::command_in(
            worker::worker_line(project_root, share_id, target, protection, expires_at),
        ) == Ok::<CommandModel, Seq<char>>(
            CommandModel::Serve(
                worker::worker_line(project_root, share_id, target, protection, expires_at).skip(1),
            ),
        ),
        worker::told_on(
            worker::worker_line(project_root, share_id, target, protection, expires_at).skip(1),
        ) == Ok::<InternalModel, Seq<char>>(
            InternalModel {
                project_root,
                share_id,
                label: target.label,
                description: target.description,
                routes: routes::routes_text(target.routes),
                access_mode: protection.access_mode,
                share_token: if protection.access_mode == "token"@ && protection.share_token.len()
                    > 0 {
                    Some(protection.share_token)
                } else {
                    None
                },
                expires_at,
            },
        ),
{
    lemma_flags();
    let line = worker::worker_line(project_root, share_id, target, protection, expires_at);
    let m0 = Map::<Seq<char>, Seq<char>>::empty();
    let m1 = m0.insert("project-root"@, project_root);
    let m2 = m1.insert("share-id"@, share_id);
    let m3 = m2.insert("label"@, target.label);
    let m4 = m3.insert("description"@, target.description);
    let m5 = m4.insert("routes"@, routes::routes_text(target.routes));
    let m6 = m5.insert("access-mode"@, protection.access_mode);
    let a0 = line.skip(1);
    let a1 = line.skip(3);
    let a2 = line.skip(5);
    let a3 = line.skip(7);
    let a4 = line.skip(9);
    let a5 = line.skip(11);
    let a6 = line.skip(13);
    assert(a0 =~= seq!["--project-root"@, project_root] + a1);
    assert(a1 =~= seq!["--share-id"@, share_id] + a2);
    assert(a2 =~= seq!["--label"@, target.label] + a3);
    assert(a3 =~= seq!["--description"@, target.description] + a4);
    assert(a4 =~= seq!["--routes"@, routes::routes_text(target.routes)] + a5);
    assert(a5 =~= seq!["--access-mode"@, protection.access_mode] + a6);
    lemma_flag_step(a0, m0, "project-root"@, project_root, a1);
    lemma_flag_step(a1, m1, "share-id"@, share_id, a2);
    lemma_flag_step(a2, m2, "label"@, target.label, a3);
    lemma_flag_step(a3, m3, "description"@, target.description, a4);
    lemma_flag_step(a4, m4, "routes"@, routes::routes_text(target.routes), a5);
    lemma_flag_step(a5, m5, "access-mode"@, protection.access_mode, a6);
    let with_token = protection.access_mode == "token"@ && protection.share_token.len() > 0;
    let a7 = if expires_at is Some {
        a6.skip(2)
    } else {
        a6
    };
    let m7 = match expires_at {
        Some(t) => m6.insert("expires-at"@, number::decimal(t as nat)),
        None => m6,
    };
    if expires_at is Some {
        let digits = number::decimal(expires_at->0 as nat);
        number::decimal_reads_back(expires_at->0 as nat);
        assert(a6 =~= seq!["--expires-at"@, digits] + a7);
        lemma_flag_step(a6, m6, "expires-at"@, digits, a7);
    }
    let m8 = if with_token {
        m7.insert("share-token"@, protection.share_token)
    } else {
        m7
    };
    let none = Seq::<Seq<char>>::empty();
    if with_token {
        assert(a7 =~= seq!["--share-token"@, protection.share_token] + none);
        lemma_flag_step(a7, m7, "share-token"@, protection.share_token, none);
    } else {
        assert(a7 =~= none);
    }
    assert(worker::arg_fields(a0, m0) == Ok::<Map<Seq<char>, Seq<char>>, Seq<char>>(m8));
}

/// A token that the tool makes survives wherever it goes: in the query of a URL, in a cookie, in a
/// header and in a record.
pub proof fn fresh_token_survives(now: u64, pid: u32)
    ensures
        ({
            let token = protection::fresh_token(now, pid);
            &&& token.len() > 0
            &&& laws::lacks(token, '&')
            &&& laws::lacks(token, ';')
            &&& class::trimmed(token) == token
            &&& is_plain(token)
        }),
{
    reveal_strlit("ltg-");
    let token = protection::fresh_token(now, pid);
    let digits = number::hexadecimal((now ^ (pid as u64)) as nat);
    number::hexadecimal_reads_back((now ^ (pid as u64)) as nat);
    assert forall|i: int| 0 <= i < token.len() implies #[trigger] token[i] == '-' || '0' <= token[i]
        <= '9' || 'A' <= token[i] <= 'Z' || 'a' <= token[i] <= 'z' by {
        if i >= 4 {
            assert(token[i] == digits[i - 4]);
            assert(number::hex_digit_value(digits[i - 4]) is Some);
        }
    }
    assert(laws::lacks(token, '\\'));
    unescaping_needs_a_backslash(token);
    assert(token.last() == token[token.len() - 1]);
    laws::lemma_trim_is_clean(token, CharClass::Space);
}

/// Tokens that the tool makes are the same only if the time and the process mix to the same number.
pub proof fn fresh_tokens_differ(now: u64, pid: u32, later: u64, other: u32)
    ensures
        protection::fresh_token(now, pid) == protection::fresh_token(later, other) <==> now ^ (
        pid as u64) == later ^ (other as u64),
{
    number::hexadecimal_reads_back((now ^ (pid as u64)) as nat);
    number::hexadecimal_reads_back((later ^ (other as u64)) as nat);
    let n = "ltg-"@.len() as int;
    assert(protection::fresh_token(now, pid).skip(n) =~= number::hexadecimal(
        (now ^ (pid as u64)) as nat,
    ));
    assert(protection::fresh_token(later, other).skip(n) =~= number::hexadecimal(
        (later ^ (other as u64)) as nat,
    ));
}

} // verus!
