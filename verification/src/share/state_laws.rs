//! What is known of a share while it starts, runs and after, told by what was seen of it.
use crate::paths;
use crate::share::fields;
use crate::share::state;
use crate::share::state::ActiveModel;
use crate::share::status;
use crate::share::status::{LaunchStepModel, Probe, StateFileModel};
use crate::share::worker;
use crate::share::worker::{InternalModel, TunnelStateModel, TunnelStepModel};
use crate::text::class;
use crate::text::class::CharClass;
use crate::text::facts;
use crate::text::laws;
use crate::text::number;
use crate::text::search;
use crate::text::std_calls;
use vstd::prelude::*;

verus! {

/// The URL that is handed out is the public one; in token mode the token stands behind it, as a pair
/// of the query that it has or that begins there.
pub proof fn launch_url_is_the_public_url_with_the_token(share: ActiveModel)
    ensures
        ({
            let url = state::launch_url_of(share);
            let asks = share.access_mode == "token"@ && share.share_token is Some;
            &&& !asks ==> url == share.public_url
            &&& asks && laws::lacks(share.public_url, '?') ==> url == share.public_url + seq!['?']
                + "ltg_token="@ + share.share_token->0
            &&& asks && !laws::lacks(share.public_url, '?') ==> url == share.public_url + seq!['&']
                + "ltg_token="@ + share.share_token->0
        }),
{
    reveal_strlit("?");
    reveal_strlit("&");
    assert("?"@ =~= seq!['?']);
    assert("&"@ =~= seq!['&']);
    if share.public_url.contains('?') {
        let i = choose|i: int| 0 <= i < share.public_url.len() && share.public_url[i] == '?';
        assert(!laws::lacks(share.public_url, '?'));
    } else {
        assert forall|i: int| 0 <= i < share.public_url.len() implies #[trigger] share.public_url[i]
            != '?' by {
            assert(!share.public_url.contains('?'));
        }
    }
}

/// A record without an id, a label or a description tells of no share. What else it does not say is
/// filled in with care: such a share asks for a token, has none, does not run out and has no
/// processes, no port, no URL and no known status.
pub proof fn missing_fields_are_filled_in_with_care(map: Map<Seq<char>, Seq<char>>)
    ensures
        state::share_from(map) is Ok <==> map.contains_key("id"@) && map.contains_key(
            "target_label"@,
        ) && map.contains_key("target_description"@),
        state::share_from(map) matches Ok(s) ==> {
            &&& s.id == map["id"@] && s.target_label == map["target_label"@]
            &&& s.target_description == map["target_description"@]
            &&& !map.contains_key("public_url"@) ==> s.public_url.len() == 0
            &&& !map.contains_key("access_mode"@) ==> s.access_mode == "token"@
            &&& !map.contains_key("share_token"@) ==> s.share_token is None
            &&& !map.contains_key("started_at"@) ==> s.started_at == 0
            &&& !map.contains_key("expires_at"@) ==> s.expires_at is None
            &&& !map.contains_key("pid"@) ==> s.pid == 0
            &&& !map.contains_key("cloudflared_pid"@) ==> s.cloudflared_pid is None
            &&& !map.contains_key("status"@) ==> s.status == "unknown"@
            &&& !map.contains_key("proxy_port"@) ==> s.proxy_port == 0
        },
        state::share_from(map) matches Err(e) ==> exists|key: Seq<char>|
            !map.contains_key(key) && e == #[trigger] fields::missing(key),
{
}

/// The status of a share: it has run out once its end is reached, whatever its processes do; else it
/// has stopped if its worker is known to be gone; else its tunnel has, if there is one and it is
/// known to be gone; and otherwise it is as it was recorded. What is not known changes nothing, and
/// nothing but the status ever changes.
pub proof fn status_tells_what_is_gone(share: ActiveModel, now: u64, probe: Probe)
    ensures
        ({
            let r = status::refreshed(share, now, probe);
            let over = share.expires_at is Some && share.expires_at->0 <= now;
            let tunnel_gone = share.cloudflared_pid is Some && probe.tunnel == Some(false);
            &&& r == (ActiveModel { status: r.status, ..share })
            &&& over ==> r.status == "expired"@
            &&& !over && probe.worker == Some(false) ==> r.status == "stopped"@
            &&& !over && probe.worker != Some(false) && tunnel_gone ==> r.status
                == "cloudflared-stopped"@
            &&& !over && probe.worker != Some(false) && !tunnel_gone ==> r.status == share.status
        }),
{
}

/// A process is known to live if `ps` has listed it, and known to be gone if it has listed nothing
/// but white space; where `ps` has failed, nothing is known.
pub proof fn listed_processes_live(listing: Seq<u8>)
    ensures
        status::alive(false, listing) is None,
        status::alive(true, listing) == Some(!facts::all_white(std_calls::lossy_text(listing))),
{
    let text = std_calls::lossy_text(listing);
    let nothing = Seq::<char>::empty();
    if facts::all_white(text) {
        facts::trimming_takes_white_space_off(text, nothing, nothing);
        assert(text + nothing + nothing =~= text);
    } else {
        facts::trimming_leaves_clean_ends(text);
        let t = class::trimmed(text);
        if t.len() == 0 {
            let (a, b) = choose|a: Seq<char>, b: Seq<char>|
                facts::all_white(a) && facts::all_white(b) && text == #[trigger] (a + t + b);
            assert forall|i: int| 0 <= i < text.len() implies facts::is_white(#[trigger] text[i]) by {
                if i < a.len() {
                    assert(text[i] == a[i]);
                } else {
                    assert(text[i] == b[i - a.len()]);
                }
            }
        }
    }
}

/// A state file has a name in front of the ending `.state`, and nothing behind that.
pub proof fn state_files_end_in_state(name: Seq<char>)
    ensures
        paths::names_state_file(name) <==> exists|base: Seq<char>|
            base.len() > 0 && name == #[trigger] (base + ".state"@),
{
    reveal_strlit(".state");
    reveal_strlit("state");
    assert(".state"@ =~= seq!['.'] + "state"@);
    facts::last_piece_stands_behind_the_last_separator(name, '.');
    if paths::names_state_file(name) {
        let front = choose|front: Seq<char>| name == #[trigger] (front + seq!['.'] + "state"@);
        assert(name =~= front + ".state"@);
        assert(front.len() > 0);
    }
    if exists|base: Seq<char>| base.len() > 0 && name == #[trigger] (base + ".state"@) {
        let base = choose|base: Seq<char>| base.len() > 0 && name == #[trigger] (base + ".state"@);
        paths::recorded_states_are_found(base);
    }
}

/// Every state file that can be read adds its share to the list, in the order of the files; no other
/// file does.
pub proof fn every_state_file_is_read(files: Seq<StateFileModel>, file: StateFileModel)
    ensures
        ({
            let before = status::shares_of_files(files);
            let now = status::shares_of_files(files.push(file));
            let is_state = exists|base: Seq<char>|
                base.len() > 0 && file.name == #[trigger] (base + ".state"@);
            &&& is_state && file.contents is Some && state::share_in(file.contents->0) is Ok ==> now
                == before.push(state::share_in(file.contents->0)->Ok_0)
            &&& !(is_state && file.contents is Some && state::share_in(file.contents->0) is Ok)
                ==> now == before
        }),
{
    state_files_end_in_state(file.name);
    assert(files.push(file).drop_last() =~= files);
}

/// A share that is starting is waited for at most 60 times. It is up as soon as its record can be
/// read and has a URL; it has failed as soon as the log of its worker tells of an error, with the
/// log's last line for a reason; until then it is waited for.
pub proof fn starting_shares_are_waited_for(
    polls: u32,
    contents: Option<Seq<char>>,
    log: Option<Seq<char>>,
    pid: u32,
    logs: Seq<char>,
)
    ensures
        ({
            let step = status::launch_step(polls, contents, log, pid, logs);
            let up = contents is Some && state::share_in(contents->0) is Ok && state::share_in(
                contents->0,
            )->Ok_0.public_url.len() > 0;
            let failed = log is Some && facts::occurs(log->0, "error:"@);
            &&& polls >= 60 ==> step == LaunchStepModel::Failed(
                "share worker "@ + number::decimal(pid as nat)
                    + " started but did not publish a URL in time. Check logs in "@ + logs,
            )
            &&& polls < 60 && up ==> step == LaunchStepModel::Ready(
                state::share_in(contents->0)->Ok_0,
            )
            &&& polls < 60 && !up && failed ==> (step matches LaunchStepModel::Failed(e)
                && class::lines(log->0).len() > 0 && e == class::lines(log->0).last())
            &&& polls < 60 && !up && !failed ==> step is Wait
        }),
{
    if log is Some {
        facts::containing_is_occurring(log->0, "error:"@);
        if facts::occurs(log->0, "error:"@) {
            reveal_strlit("error:");
            assert(log->0.len() > 0);
            lemma_some_line(log->0);
        }
    }
}

proof fn lemma_some_line(s: Seq<char>)
    requires
        s.len() > 0,
    ensures
        class::lines(s).len() > 0,
{
}

/// Whether a word is the address of a quick tunnel.
pub open spec fn is_quick_tunnel(word: Seq<char>) -> bool {
    "https://"@.len() <= word.len() && word.take("https://"@.len() as int) == "https://"@
        && facts::occurs(word, "trycloudflare.com"@)
}

/// Whether a character may stand around an address in a log: a quote, a comma or a closing bracket.
pub open spec fn is_edge(c: char) -> bool {
    c == '"' || c == '\'' || c == ',' || c == ')'
}

/// Whether a text is made of such characters alone.
pub open spec fn all_edges(s: Seq<char>) -> bool {
    forall|i: int| 0 <= i < s.len() ==> is_edge(#[trigger] s[i])
}

proof fn lemma_edges(a: Seq<char>, t: Seq<char>, b: Seq<char>)
    requires
        all_edges(a),
        all_edges(b),
        t.len() > 0,
        !is_edge(t[0]),
        !is_edge(t[t.len() - 1]),
    ensures
        class::trim(a + t + b, CharClass::UrlEdge) == t,
    decreases a.len() + b.len(),
{
    let k = CharClass::UrlEdge;
    let s = a + t + b;
    if a.len() > 0 {
        assert(is_edge(a[0]));
        assert(s[0] == a[0]);
        assert(s.skip(1) =~= a.skip(1) + t + b);
        assert forall|i: int| 0 <= i < a.skip(1).len() implies is_edge(#[trigger] a.skip(1)[i]) by {
            assert(is_edge(a[i + 1]));
        }
        lemma_edges(a.skip(1), t, b);
    } else if b.len() > 0 {
        assert(s[0] == t[0]);
        assert(is_edge(b[b.len() - 1]));
        assert(s.last() == b[b.len() - 1]);
        let shorter = a + t + b.drop_last();
        assert(s.drop_last() =~= shorter);
        assert(shorter[0] == t[0]);
        assert forall|i: int| 0 <= i < b.drop_last().len() implies is_edge(
            #[trigger] b.drop_last()[i],
        ) by {
            assert(is_edge(b[i]));
        }
        lemma_edges(a, t, b.drop_last());
    } else {
        assert(s =~= t);
    }
}

/// The public URL of a tunnel is the first of the words in its log that is the address of a quick
/// tunnel, without the punctuation around it; where none is, there is no URL yet.
pub proof fn first_tunnel_address_is_the_url(
    log: Seq<char>,
    at: int,
    a: Seq<char>,
    url: Seq<char>,
    b: Seq<char>,
)
    requires
        0 <= at < class::words(log).len(),
        class::words(log)[at] == a + url + b,
        all_edges(a),
        all_edges(b),
        url.len() > 0 && !is_edge(url[0]) && !is_edge(url[url.len() - 1]),
        is_quick_tunnel(url),
        forall|i: int|
            0 <= i < at ==> !is_quick_tunnel(
                class::trim(#[trigger] class::words(log)[i], CharClass::UrlEdge),
            ),
    ensures
        worker::public_url_in(log) == Some(url),
{
    lemma_edges(a, url, b);
    lemma_url_at(class::words(log), at, url);
}

proof fn lemma_tunnel_url(word: Seq<char>)
    ensures
        worker::is_tunnel_url(word) <==> is_quick_tunnel(word),
{
    facts::containing_is_occurring(word, "trycloudflare.com"@);
}

proof fn lemma_url_at(words: Seq<Seq<char>>, at: int, url: Seq<char>)
    requires
        0 <= at < words.len(),
        class::trim(words[at], CharClass::UrlEdge) == url,
        is_quick_tunnel(url),
        forall|i: int|
            0 <= i < at ==> !is_quick_tunnel(
                class::trim(#[trigger] words[i], CharClass::UrlEdge),
            ),
    ensures
        worker::url_among(words) == Some(url),
    decreases words.len(),
{
    lemma_tunnel_url(class::trim(words[0], CharClass::UrlEdge));
    if at > 0 {
        let rest = words.skip(1);
        assert(rest[at - 1] == words[at]);
        assert forall|i: int| 0 <= i < at - 1 implies !is_quick_tunnel(
            class::trim(#[trigger] rest[i], CharClass::UrlEdge),
        ) by {
            assert(rest[i] == words[i + 1]);
        }
        assert(!is_quick_tunnel(class::trim(words[0], CharClass::UrlEdge)));
        lemma_url_at(rest, at - 1, url);
    }
}

/// A log without the address of a quick tunnel tells of no URL, and what it tells of is one.
pub proof fn other_logs_tell_of_no_url(log: Seq<char>)
    ensures
        match worker::public_url_in(log) {
            Some(url) => is_quick_tunnel(url) && exists|i: int|
                0 <= i < class::words(log).len() && class::trim(
                    #[trigger] class::words(log)[i],
                    CharClass::UrlEdge,
                ) == url,
            None => forall|i: int|
                0 <= i < class::words(log).len() ==> !is_quick_tunnel(
                    class::trim(#[trigger] class::words(log)[i], CharClass::UrlEdge),
                ),
        },
{
    lemma_url_among(class::words(log));
}

proof fn lemma_url_among(words: Seq<Seq<char>>)
    ensures
        match worker::url_among(words) {
            Some(url) => is_quick_tunnel(url) && exists|i: int|
                0 <= i < words.len() && class::trim(#[trigger] words[i], CharClass::UrlEdge) == url,
            None => forall|i: int|
                0 <= i < words.len() ==> !is_quick_tunnel(
                    class::trim(#[trigger] words[i], CharClass::UrlEdge),
                ),
        },
    decreases words.len(),
{
    if words.len() > 0 {
        let first = class::trim(words[0], CharClass::UrlEdge);
        lemma_tunnel_url(first);
        if !worker::is_tunnel_url(first) {
            let rest = words.skip(1);
            lemma_url_among(rest);
            match worker::url_among(rest) {
                Some(url) => {
                    let i = choose|i: int|
                        0 <= i < rest.len() && class::trim(#[trigger] rest[i], CharClass::UrlEdge)
                            == url;
                    assert(words[i + 1] == rest[i]);
                },
                None => {
                    assert forall|i: int| 0 <= i < words.len() implies !is_quick_tunnel(
                        class::trim(#[trigger] words[i], CharClass::UrlEdge),
                    ) by {
                        if i > 0 {
                            assert(words[i] == rest[i - 1]);
                        }
                    }
                },
            }
        } else {
            assert(class::trim(words[0], CharClass::UrlEdge) == first);
        }
    }
}

/// A tunnel that is starting is waited for at most 60 times. It is up as soon as its log tells of its
/// URL; it has failed if its process has exited, with that status, or could not be asked; until then
/// it is waited for.
pub proof fn starting_tunnels_are_waited_for(
    polls: u32,
    log: Option<Seq<char>>,
    process: TunnelStateModel,
    log_path: Seq<char>,
)
    ensures
        ({
            let step = worker::tunnel_step(polls, log, process, log_path);
            let url = if log is Some {
                worker::public_url_in(log->0)
            } else {
                None
            };
            &&& polls >= 60 ==> step == TunnelStepModel::Failed(
                "timed out waiting for cloudflared to publish a URL. Check "@ + log_path,
            )
            &&& polls < 60 && url is Some ==> step == TunnelStepModel::Ready(url->0)
            &&& polls < 60 && url is None ==> match process {
                TunnelStateModel::Running => step is Wait,
                TunnelStateModel::Exited(status) => step == TunnelStepModel::Failed(
                    "cloudflared exited before creating a tunnel: "@ + status + ". Check "@
                        + log_path,
                ),
                TunnelStateModel::Unknown(error) => step == TunnelStepModel::Failed(
                    "failed to poll cloudflared: "@ + error,
                ),
            }
        }),
{
}

/// A share that has come up is the one that its worker was told of, under its URL, from this time on
/// and with these processes; and it is active.
pub proof fn started_shares_are_those_told_of(
    told: InternalModel,
    public_url: Seq<char>,
    started_at: u64,
    pid: u32,
    cloudflared_pid: u32,
    proxy_port: u16,
)
    ensures
        ({
            let s = worker::started_share(
                told,
                public_url,
                started_at,
                pid,
                cloudflared_pid,
                proxy_port,
            );
            &&& s.id == told.share_id && s.target_label == told.label
            &&& s.target_description == told.description
            &&& s.access_mode == told.access_mode && s.share_token == told.share_token
            &&& s.expires_at == told.expires_at
            &&& s.public_url == public_url && s.started_at == started_at && s.pid == pid
            &&& s.cloudflared_pid == Some(cloudflared_pid) && s.proxy_port == proxy_port
            &&& s.status == "active"@
        }),
{
}

/// A line of a record with an equals sign in it sets the field in front of the sign to what stands
/// behind it, its escapes turned back; any other line sets nothing.
pub proof fn lines_of_a_record_set_fields(
    lines: Seq<Seq<char>>,
    key: Seq<char>,
    value: Seq<char>,
)
    requires
        laws::lacks(key, '='),
    ensures
        state::state_fields(lines.push(key + seq!['='] + value)) == state::state_fields(
            lines,
        ).insert(key, fields::unescaped(value)),
        state::state_fields(lines.push(key)) == state::state_fields(lines),
        state::state_fields(seq![]) == Map::<Seq<char>, Seq<char>>::empty(),
{
    laws::split_once_parts(key, '=', value);
    laws::split_whole(key, '=');
    assert(lines.push(key + seq!['='] + value).drop_last() =~= lines);
    assert(lines.push(key).drop_last() =~= lines);
}

/// The number that a field spells, if it is there and spells one that is at most `max`.
pub open spec fn spelled(map: Map<Seq<char>, Seq<char>>, key: Seq<char>, max: nat) -> Option<nat> {
    if map.contains_key(key) && number::decimal_value(map[key]) is Some && number::decimal_value(
        map[key],
    )->0 <= max {
        number::decimal_value(map[key])
    } else {
        None
    }
}

/// What a record says of a share is what the share is: its texts as they stand, its numbers as they
/// are spelled or nought where they spell none that fits, and its token if it is not empty.
pub proof fn fields_of_a_record_are_the_share(map: Map<Seq<char>, Seq<char>>)
    ensures
        state::share_from(map) matches Ok(s) ==> {
            &&& map.contains_key("public_url"@) ==> s.public_url == map["public_url"@]
            &&& map.contains_key("access_mode"@) ==> s.access_mode == map["access_mode"@]
            &&& map.contains_key("status"@) ==> s.status == map["status"@]
            &&& map.contains_key("share_token"@) && map["share_token"@].len() > 0 ==> s.share_token
                == Some(map["share_token"@])
            &&& map.contains_key("share_token"@) && map["share_token"@].len() == 0
                ==> s.share_token is None
            &&& spelled(map, "started_at"@, u64::MAX as nat) matches Some(n) ==> s.started_at == n
            &&& spelled(map, "started_at"@, u64::MAX as nat) is None ==> s.started_at == 0
            &&& spelled(map, "pid"@, u32::MAX as nat) is None ==> s.pid == 0
            &&& spelled(map, "proxy_port"@, u16::MAX as nat) is None ==> s.proxy_port == 0
            &&& spelled(map, "expires_at"@, u64::MAX as nat) matches Some(n) ==> s.expires_at
                == Some(n as u64)
            &&& spelled(map, "expires_at"@, u64::MAX as nat) is None ==> s.expires_at is None
            &&& spelled(map, "pid"@, u32::MAX as nat) matches Some(n) ==> s.pid == n
            &&& spelled(map, "cloudflared_pid"@, u32::MAX as nat) matches Some(n)
                ==> s.cloudflared_pid == Some(n as u32)
            &&& spelled(map, "cloudflared_pid"@, u32::MAX as nat) is None
                ==> s.cloudflared_pid is None
            &&& spelled(map, "proxy_port"@, u16::MAX as nat) matches Some(n) ==> s.proxy_port == n
        },
{
}

/// A worker is told of its share exactly if its command line says what it needs: where the project
/// is, the share's id, its label, its description, its routes and its mode. A flag takes the next
/// word for its value.
pub proof fn workers_are_told_what_they_need(
    map: Map<Seq<char>, Seq<char>>,
    name: Seq<char>,
    value: Seq<char>,
    rest: Seq<Seq<char>>,
)
    requires
        name.len() > 0,
        name[0] != '-',
    ensures
        worker::told_by(map) is Ok <==> map.contains_key("project-root"@) && map.contains_key(
            "share-id"@,
        ) && map.contains_key("label"@) && map.contains_key("description"@) && map.contains_key(
            "routes"@,
        ) && map.contains_key("access-mode"@),
        worker::told_by(map) matches Ok(told) ==> {
            &&& told.project_root == map["project-root"@] && told.share_id == map["share-id"@]
            &&& told.label == map["label"@] && told.description == map["description"@]
            &&& told.routes == map["routes"@] && told.access_mode == map["access-mode"@]
            &&& told.share_token == if map.contains_key("share-token"@) {
                Some(map["share-token"@])
            } else {
                None
            }
            &&& spelled(map, "expires-at"@, u64::MAX as nat) matches Some(n) ==> told.expires_at
                == Some(n as u64)
            &&& spelled(map, "expires-at"@, u64::MAX as nat) is None ==> told.expires_at is None
        },
        worker::arg_fields(seq![seq!['-', '-'] + name, value] + rest, map) == worker::arg_fields(
            rest,
            map.insert(name, value),
        ),
        worker::arg_fields(seq![seq!['-', '-'] + name], map) == Err::<
            Map<Seq<char>, Seq<char>>,
            Seq<char>,
        >("missing value for --"@ + name),
        worker::arg_fields(seq![name] + rest, map) == worker::arg_fields(rest, map),
        worker::arg_fields(seq![], map) == Ok::<Map<Seq<char>, Seq<char>>, Seq<char>>(map),
{
    reveal_strlit("--");
    assert("--"@ =~= seq!['-', '-']);
    let flag = seq!['-', '-'] + name;
    assert(flag.take(2) =~= seq!['-', '-']);
    assert(flag.skip(2) =~= name);
    assert(!search::begins(name, seq!['-', '-'])) by {
        if search::begins(name, seq!['-', '-']) {
            assert(name.take(2)[0] == '-');
        }
    }
    reveal_with_fuel(worker::flag_name, 2);
    assert((seq![flag, value] + rest).skip(2) =~= rest);
    assert((seq![name] + rest).skip(1) =~= rest);
}

/// Every share is listed with the status that it has now, none is left out, and nothing else about it
/// is changed.
pub proof fn every_share_is_brought_up_to_date(
    shares: Seq<status::ProbedShare>,
    now: u64,
    i: int,
)
    requires
        0 <= i < shares.len(),
    ensures
        status::all_refreshed(shares, now).len() == shares.len(),
        status::all_refreshed(shares, now)[i] == (ActiveModel {
            status: status::refreshed(shares[i].share@, now, shares[i].probe).status,
            ..shares[i].share@
        }),
{
    status_tells_what_is_gone(shares[i].share@, now, shares[i].probe);
}

/// The second at which a share was asked for can be read off its id.
pub proof fn ids_tell_when_a_share_was_asked_for(now: u64)
    ensures
        worker::id_at(now).len() > 6,
        worker::id_at(now).take(6) == seq!['s', 'h', 'a', 'r', 'e', '-'],
        number::decimal_value(worker::id_at(now).skip(6)) == Some(now as nat),
{
    reveal_strlit("share-");
    let digits = number::decimal(now as nat);
    number::decimal_reads_back(now as nat);
    assert(worker::id_at(now).take(6) =~= seq!['s', 'h', 'a', 'r', 'e', '-']);
    assert(worker::id_at(now).skip(6) =~= digits);
}

} // verus!
