//! What is detected of the services on a machine, and which of them is recommended.
use crate::detect::classify;
use crate::detect::classify::ServiceModel;
use crate::detect::listeners;
use crate::detect::listeners::ListenerModel;
use crate::detect::rank;
use crate::order;
use crate::text::class;
use crate::text::class::CharClass;
use crate::text::facts;
use crate::text::laws;
use crate::text::number;
use crate::text::search;
use crate::text::std_calls;
use vstd::prelude::*;

verus! {

/// What a service loses of its score: 40 on a port of a database or a message broker, 25 if it does
/// not speak HTTP, and 45 if its command, in lower case, names a database.
pub open spec fn penalty(command: Seq<char>, port: u16, http_ready: bool) -> int {
    (if port == 3306 || port == 5432 || port == 5672 || port == 6379 || port == 9092 || port == 9200
        || port == 27017 {
        40int
    } else {
        0
    }) + (if http_ready {
        0int
    } else {
        25
    }) + (if facts::occurs(command, "mongo"@) || facts::occurs(command, "mysql"@) || facts::occurs(
        command,
        "postgres"@,
    ) || facts::occurs(command, "redis"@) {
        45int
    } else {
        0
    })
}

/// A command, in lower case, that gives away a framework of its own.
pub open spec fn names_a_framework(command: Seq<char>) -> bool {
    facts::occurs(command, "story"@) || facts::occurs(command, "next"@) || facts::occurs(
        command,
        "vite"@,
    ) || facts::occurs(command, "nuxt"@) || names_a_backend(command)
}

/// A command, in lower case, that gives away a framework for backends.
pub open spec fn names_a_backend(command: Seq<char>) -> bool {
    facts::occurs(command, "uvicorn"@) || facts::occurs(command, "gunicorn"@) || facts::occurs(
        command,
        "flask"@,
    ) || facts::occurs(command, "rails"@) || facts::occurs(command, "puma"@)
}

/// A port that gives away a framework whatever listens on it.
pub open spec fn telling_port(port: u16, package_json: bool) -> bool {
    port == 6006 || port == 5173 || port == 4173 || (port == 3000 && package_json)
}

/// Whether a service is taken to be of a kind.
pub open spec fn taken_for(s: ServiceModel, framework: Seq<char>, role: Seq<char>) -> bool {
    s.framework == framework && s.role == role
}

proof fn lemma_occurring(command: Seq<char>)
    ensures
        forall|p: Seq<char>|
            #![trigger search::contains(command, p)]
            #![trigger facts::occurs(command, p)]
            search::contains(command, p) == facts::occurs(command, p),
{
    assert forall|p: Seq<char>|
        #![trigger search::contains(command, p)]
        #![trigger facts::occurs(command, p)]
        search::contains(command, p) == facts::occurs(command, p) by {
        facts::containing_is_occurring(command, p);
    }
}

proof fn lemma_roles()
    ensures
        "app"@ != "frontend"@,
        "app"@ != "api"@,
        "app"@ != "docs"@,
        "app"@ != "webhook"@,
        "unknown"@ != "frontend"@,
        "unknown"@ != "api"@,
        "unknown"@ != "docs"@,
        "unknown"@ != "webhook"@,
        "unknown"@ != "app"@,
{
    reveal_strlit("app");
    reveal_strlit("frontend");
    reveal_strlit("api");
    reveal_strlit("docs");
    reveal_strlit("webhook");
    reveal_strlit("unknown");
    assert("app"@[1] == 'p' && "api"@[1] == 'p');
    assert("app"@[2] == 'p' && "api"@[2] == 'i');
    assert("unknown"@[0] == 'u' && "webhook"@[0] == 'w');
    assert("app"@.len() == 3 && "api"@.len() == 3 && "docs"@.len() == 4);
    assert("frontend"@.len() == 8 && "webhook"@.len() == 7 && "unknown"@.len() == 7);
}

/// A command that names Storybook, or its port, makes documentation of a service.
pub proof fn storybooks_are_docs(
    port: u16,
    command: Seq<char>,
    pid: Seq<char>,
    http_ready: bool,
    package_json: bool,
)
    requires
        facts::occurs(std_calls::lowercase(command), "story"@) || port == 6006,
    ensures
        ({
            let s = classify::classified(port, command, pid, http_ready, package_json);
            &&& taken_for(s, "storybook"@, "docs"@)
            &&& s.name == "docs"@
            &&& s.score == 90 - penalty(std_calls::lowercase(command), port, http_ready)
        }),
{
    lemma_occurring(std_calls::lowercase(command));
}

/// A command that names Next.js makes a frontend of a service, and so does port 3000 in a project
/// with a `package.json`.
pub proof fn next_is_a_frontend(
    port: u16,
    command: Seq<char>,
    pid: Seq<char>,
    http_ready: bool,
    package_json: bool,
)
    requires
        facts::occurs(std_calls::lowercase(command), "next"@) || (port == 3000 && package_json),
        !facts::occurs(std_calls::lowercase(command), "story"@),
        port != 6006,
    ensures
        ({
            let s = classify::classified(port, command, pid, http_ready, package_json);
            &&& taken_for(s, "nextjs"@, "frontend"@)
            &&& s.name == "frontend"@
            &&& s.score == 95 - penalty(std_calls::lowercase(command), port, http_ready)
        }),
{
    lemma_occurring(std_calls::lowercase(command));
}

/// A command that names Vite, or one of its ports, makes a frontend of a service.
pub proof fn vite_is_a_frontend(
    port: u16,
    command: Seq<char>,
    pid: Seq<char>,
    http_ready: bool,
    package_json: bool,
)
    requires
        facts::occurs(std_calls::lowercase(command), "vite"@) || port == 5173 || port == 4173,
        !facts::occurs(std_calls::lowercase(command), "story"@),
        !facts::occurs(std_calls::lowercase(command), "next"@),
        port != 6006,
        !(port == 3000 && package_json),
    ensures
        ({
            let s = classify::classified(port, command, pid, http_ready, package_json);
            &&& taken_for(s, "vite"@, "frontend"@)
            &&& s.name == "frontend"@
            &&& s.score == 95 - penalty(std_calls::lowercase(command), port, http_ready)
        }),
{
    lemma_occurring(std_calls::lowercase(command));
}

/// A command that names Nuxt makes a frontend of a service.
pub proof fn nuxt_is_a_frontend(
    port: u16,
    command: Seq<char>,
    pid: Seq<char>,
    http_ready: bool,
    package_json: bool,
)
    requires
        facts::occurs(std_calls::lowercase(command), "nuxt"@),
        !facts::occurs(std_calls::lowercase(command), "story"@),
        !facts::occurs(std_calls::lowercase(command), "next"@),
        !facts::occurs(std_calls::lowercase(command), "vite"@),
        !telling_port(port, package_json),
    ensures
        ({
            let s = classify::classified(port, command, pid, http_ready, package_json);
            &&& taken_for(s, "nuxt"@, "frontend"@)
            &&& s.name == "frontend"@
            &&& s.score == 95 - penalty(std_calls::lowercase(command), port, http_ready)
        }),
{
    lemma_occurring(std_calls::lowercase(command));
}

/// A command that names a web framework for backends makes an API of a service: the Python ones
/// first, then those of Ruby.
pub proof fn backends_are_apis(
    port: u16,
    command: Seq<char>,
    pid: Seq<char>,
    http_ready: bool,
    package_json: bool,
)
    requires
        names_a_backend(std_calls::lowercase(command)),
        !facts::occurs(std_calls::lowercase(command), "story"@),
        !facts::occurs(std_calls::lowercase(command), "next"@),
        !facts::occurs(std_calls::lowercase(command), "vite"@),
        !facts::occurs(std_calls::lowercase(command), "nuxt"@),
        !telling_port(port, package_json),
    ensures
        ({
            let c = std_calls::lowercase(command);
            let s = classify::classified(port, command, pid, http_ready, package_json);
            let python = facts::occurs(c, "flask"@) || facts::occurs(c, "gunicorn"@)
                || facts::occurs(c, "uvicorn"@);
            &&& s.role == "api"@ && s.name == "api"@
            &&& python ==> s.framework == "python-web"@ && s.score == 85 - penalty(
                c,
                port,
                http_ready,
            )
            &&& !python ==> s.framework == "rails"@ && s.score == 80 - penalty(c, port, http_ready)
        }),
{
    lemma_occurring(std_calls::lowercase(command));
}

/// A Node process that speaks HTTP on one of the usual ports is a frontend.
pub proof fn node_on_a_usual_port_is_a_frontend(
    port: u16,
    command: Seq<char>,
    pid: Seq<char>,
    package_json: bool,
)
    requires
        facts::occurs(std_calls::lowercase(command), "node"@),
        port == 3000 || port == 3001,
        !names_a_framework(std_calls::lowercase(command)),
        !telling_port(port, package_json),
    ensures
        ({
            let c = std_calls::lowercase(command);
            let s = classify::classified(port, command, pid, true, package_json);
            &&& s.role == "frontend"@ && s.name == "frontend"@
            &&& s.framework == if package_json {
                "node-web"@
            } else {
                "node"@
            }
            &&& s.score == 80 - penalty(c, port, true)
        }),
{
    lemma_occurring(std_calls::lowercase(command));
}

/// Anything else that speaks HTTP is an API on the usual ports of one and an app with its port in
/// its name on any other; what does not speak HTTP is unknown.
pub proof fn the_rest_goes_by_its_port(
    port: u16,
    command: Seq<char>,
    pid: Seq<char>,
    http_ready: bool,
    package_json: bool,
)
    requires
        !names_a_framework(std_calls::lowercase(command)),
        !telling_port(port, package_json),
        !(facts::occurs(std_calls::lowercase(command), "node"@) && http_ready && (port == 3000
            || port == 3001)),
    ensures
        ({
            let c = std_calls::lowercase(command);
            let s = classify::classified(port, command, pid, http_ready, package_json);
            let usual = port == 8000 || port == 8080 || port == 8787 || port == 9000;
            &&& http_ready && usual ==> taken_for(s, "http"@, "api"@) && s.name == "api"@ && s.score
                == 70 - penalty(c, port, true)
            &&& http_ready && !usual ==> taken_for(s, "http"@, "app"@) && s.name == "app-"@
                + number::decimal(port as nat) && s.score == 60 - penalty(c, port, true)
            &&& !http_ready ==> taken_for(s, "unknown"@, "unknown"@) && s.name == "service-"@
                + number::decimal(port as nat) + "-"@ + pid && s.score == 50 - penalty(
                c,
                port,
                false,
            )
        }),
{
    lemma_occurring(std_calls::lowercase(command));
    lemma_roles();
}

/// Whatever a service is taken for, its port, its command and whether it speaks HTTP are told as
/// they were found, and it is risky exactly if it costs points: as a database, on a sensitive port
/// or for want of HTTP, and the first of these is the reason.
pub proof fn risks_are_told(
    port: u16,
    command: Seq<char>,
    pid: Seq<char>,
    http_ready: bool,
    package_json: bool,
)
    ensures
        ({
            let c = std_calls::lowercase(command);
            let s = classify::classified(port, command, pid, http_ready, package_json);
            let database = facts::occurs(c, "mongo"@) || facts::occurs(c, "mysql"@)
                || facts::occurs(c, "postgres"@) || facts::occurs(c, "redis"@);
            &&& s.port == port && s.process_name == command && s.http_ready == http_ready
            &&& s.healthcheck_path == seq!['/']
            &&& s.risky <==> penalty(c, port, http_ready) > 0
            &&& s.risky <==> s.risk_reason is Some
            &&& database ==> s.risk_reason == Some("database process"@)
            &&& !database && penalty(c, port, true) > 0 ==> s.risk_reason == Some(
                "sensitive data or infrastructure port"@,
            )
            &&& !database && penalty(c, port, true) == 0 && !http_ready ==> s.risk_reason == Some(
                "service does not look like HTTP"@,
            )
        }),
{
    reveal_strlit("/");
    assert("/"@ =~= seq!['/']);
    lemma_occurring(std_calls::lowercase(command));
}

/// Whether a listener can be shared: it speaks HTTP, is on no sensitive port and is no database.
pub open spec fn can_be_shared(found: (ListenerModel, bool)) -> bool {
    found.1 && penalty(std_calls::lowercase(found.0.command), found.0.port, found.1) == 0
}

/// Whether a service is what a listener is taken for, with two points more if its command, in lower
/// case, holds the user's name.
pub open spec fn tells_of(
    s: ServiceModel,
    found: (ListenerModel, bool),
    user: Seq<char>,
    package_json: bool,
) -> bool {
    let taken = classify::classified(
        found.0.port,
        found.0.command,
        found.0.pid,
        found.1,
        package_json,
    );
    s == (ServiceModel {
        score: taken.score + if facts::occurs(
            std_calls::lowercase(found.0.command),
            std_calls::lowercase(user),
        ) {
            2int
        } else {
            0
        },
        ..taken
    })
}

proof fn lemma_offered(found: (ListenerModel, bool), user: Seq<char>, package_json: bool)
    ensures
        ({
            let s = rank::offered(found.0, found.1, user, package_json);
            &&& tells_of(s, found, user, package_json)
            &&& can_be_shared(found) <==> s.http_ready && !s.risky
        }),
{
    facts::containing_is_occurring(
        std_calls::lowercase(found.0.command),
        std_calls::lowercase(user),
    );
    risks_are_told(found.0.port, found.0.command, found.0.pid, found.1, package_json);
}

/// Whether a listener's service is on a list.
pub open spec fn is_listed(
    found: (ListenerModel, bool),
    list: Seq<ServiceModel>,
    user: Seq<char>,
    package_json: bool,
) -> bool {
    exists|j: int| 0 <= j < list.len() && tells_of(#[trigger] list[j], found, user, package_json)
}

/// Whether a service is that of a listener that can be shared.
pub open spec fn was_found(
    s: ServiceModel,
    found: Seq<(ListenerModel, bool)>,
    user: Seq<char>,
    package_json: bool,
) -> bool {
    exists|i: int|
        0 <= i < found.len() && can_be_shared(#[trigger] found[i]) && tells_of(
            s,
            found[i],
            user,
            package_json,
        )
}

proof fn lemma_is_offered(
    found: Seq<(ListenerModel, bool)>,
    i: int,
    user: Seq<char>,
    package_json: bool,
)
    requires
        0 <= i < found.len(),
        can_be_shared(found[i]),
    ensures
        is_listed(found[i], rank::offers(found, user, package_json), user, package_json),
    decreases found.len(),
{
    let front = found.drop_last();
    let n = found.len() - 1;
    let before = rank::offers(front, user, package_json);
    let all = rank::offers(found, user, package_json);
    if i < n {
        lemma_is_offered(front, i, user, package_json);
        let j = choose|j: int|
            0 <= j < before.len() && tells_of(#[trigger] before[j], front[i], user, package_json);
        assert(all[j] == before[j]);
    } else {
        lemma_offered(found[n], user, package_json);
        assert(all[before.len() as int] == rank::offered(
            found[n].0,
            found[n].1,
            user,
            package_json,
        ));
    }
}

proof fn lemma_was_found(
    found: Seq<(ListenerModel, bool)>,
    j: int,
    user: Seq<char>,
    package_json: bool,
)
    requires
        0 <= j < rank::offers(found, user, package_json).len(),
    ensures
        was_found(rank::offers(found, user, package_json)[j], found, user, package_json),
    decreases found.len(),
{
    let front = found.drop_last();
    let n = found.len() - 1;
    let before = rank::offers(front, user, package_json);
    let all = rank::offers(found, user, package_json);
    if j < before.len() {
        lemma_was_found(front, j, user, package_json);
        assert(all[j] == before[j]);
        let i = choose|i: int|
            0 <= i < front.len() && can_be_shared(#[trigger] front[i]) && tells_of(
                before[j],
                front[i],
                user,
                package_json,
            );
        assert(found[i] == front[i]);
    } else {
        lemma_offered(found[n], user, package_json);
        assert(can_be_shared(found[n]));
    }
}

proof fn lemma_listed_order(
    found: Seq<(ListenerModel, bool)>,
    user: Seq<char>,
    package_json: bool,
)
    ensures
        ({
            let listed = order::sorted(
                rank::offers(found, user, package_json),
                rank::offer_order(),
            );
            forall|i: int, j: int|
                0 <= i < j < listed.len() ==> (#[trigger] listed[i]).score > (
                #[trigger] listed[j]).score || (listed[i].score == listed[j].score && listed[i].port
                    <= listed[j].port)
        }),
{
    let listed = order::sorted(rank::offers(found, user, package_json), rank::offer_order());
    rank::offered_services_are_shareable_and_ranked(found, user, package_json);
    assert forall|i: int, j: int| 0 <= i < j < listed.len() implies (#[trigger] listed[i]).score > (
    #[trigger] listed[j]).score || (listed[i].score == listed[j].score && listed[i].port
        <= listed[j].port) by {
        assert(!rank::offered_before(listed[j], listed[i]));
        assert(!listed[i].risky && !listed[j].risky);
    }
}

/// Every listener that can be shared is on the list, and nothing else is. Higher scores stand in
/// front, and of equal scores lower ports; so the first service has the highest score of all that
/// can be shared.
pub proof fn best_service_comes_first(
    found: Seq<(ListenerModel, bool)>,
    user: Seq<char>,
    package_json: bool,
)
    ensures
        ({
            let listed = order::sorted(
                rank::offers(found, user, package_json),
                rank::offer_order(),
            );
            &&& forall|i: int|
                0 <= i < found.len() && can_be_shared(#[trigger] found[i]) ==> is_listed(
                    found[i],
                    listed,
                    user,
                    package_json,
                )
            &&& forall|j: int|
                0 <= j < listed.len() ==> was_found(
                    #[trigger] listed[j],
                    found,
                    user,
                    package_json,
                )
            &&& forall|i: int, j: int|
                0 <= i < j < listed.len() ==> (#[trigger] listed[i]).score > (
                #[trigger] listed[j]).score || (listed[i].score == listed[j].score && listed[i].port
                    <= listed[j].port)
        }),
{
    let all = rank::offers(found, user, package_json);
    let listed = order::sorted(all, rank::offer_order());
    order::sorting_keeps_members(all, rank::offer_order());
    lemma_listed_order(found, user, package_json);
    assert forall|i: int| 0 <= i < found.len() && can_be_shared(
        #[trigger] found[i],
    ) implies is_listed(found[i], listed, user, package_json) by {
        lemma_is_offered(found, i, user, package_json);
        let k = choose|k: int|
            0 <= k < all.len() && tells_of(#[trigger] all[k], found[i], user, package_json);
        assert(all.contains(all[k]));
        let j = choose|j: int| 0 <= j < listed.len() && listed[j] == all[k];
        assert(tells_of(listed[j], found[i], user, package_json));
    }
    assert forall|j: int| 0 <= j < listed.len() implies was_found(
        #[trigger] listed[j],
        found,
        user,
        package_json,
    ) by {
        assert(listed.contains(listed[j]));
        assert(all.contains(listed[j]));
        let k = choose|k: int| 0 <= k < all.len() && all[k] == listed[j];
        lemma_was_found(found, k, user, package_json);
    }
}

/// A binding names the port behind its last colon; a connection between two addresses names none, and
/// neither does what has no port there.
pub proof fn bindings_name_their_port(host: Seq<char>, port: u16, other: Seq<char>)
    ensures
        ({
            let binding = host + seq![':'] + number::decimal(port as nat);
            &&& !facts::occurs(binding, seq!['-', '>']) ==> listeners::port_in(binding) == Some(port)
            &&& facts::occurs(binding, seq!['-', '>']) ==> listeners::port_in(binding) is None
        }),
        laws::lacks(other, ':') && laws::lacks(other, '[') && laws::lacks(other, ']') && !(
        number::decimal_value(other) matches Some(n) && n <= 65535) ==> listeners::port_in(
            host + seq![':'] + other,
        ) is None,
{
    laws::split_appended(host, ':', other);
    if laws::lacks(other, ':') && laws::lacks(other, '[') && laws::lacks(other, ']') {
        laws::split_whole(other, ':');
        laws::lemma_trim_is_clean(other, CharClass::Char(']'));
        laws::lemma_trim_is_clean(other, CharClass::Char('['));
        assert(class::split(host + seq![':'] + other, CharClass::Char(':')).last() == other);
    }
    reveal_strlit("->");
    assert("->"@ =~= seq!['-', '>']);
    let digits = number::decimal(port as nat);
    let binding = host + seq![':'] + digits;
    facts::containing_is_occurring(binding, "->"@);
    number::decimal_reads_back(port as nat);
    laws::split_appended(host, ':', digits);
    assert(laws::lacks(digits, ':')) by {
        assert forall|i: int| 0 <= i < digits.len() implies #[trigger] digits[i] != ':' by {
            assert('0' <= digits[i] <= '9');
        }
    }
    laws::split_whole(digits, ':');
    assert('0' <= digits[0] <= '9');
    assert('0' <= digits[digits.len() - 1] <= '9');
    laws::lemma_trim_is_clean(digits, CharClass::Char(']'));
    laws::lemma_trim_is_clean(digits, CharClass::Char('['));
    assert(class::split(binding, CharClass::Char(':')).last() == digits);
}

/// The ports that have been seen are those of the bindings, whoever they belong to.
pub proof fn every_binding_is_seen(lines: Seq<Seq<char>>, port: u16)
    ensures
        listeners::scan_lines(lines).seen.contains(port) <==> exists|i: int|
            0 <= i < lines.len() && (#[trigger] lines[i]).len() > 0 && lines[i][0] == 'n'
                && listeners::port_in(lines[i].skip(1)) == Some(port),
    decreases lines.len(),
{
    if lines.len() > 0 {
        let front = lines.drop_last();
        let n = lines.len() - 1;
        every_binding_is_seen(front, port);
        let before = listeners::scan_lines(front);
        let now = listeners::scan_lines(lines);
        if before.seen.contains(port) {
            let i = choose|i: int|
                0 <= i < front.len() && (#[trigger] front[i]).len() > 0 && front[i][0] == 'n'
                    && listeners::port_in(front[i].skip(1)) == Some(port);
            assert(lines[i] == front[i]);
            let k = choose|k: int| 0 <= k < before.seen.len() && before.seen[k] == port;
            assert(now.seen[k] == port);
        } else if now.seen.contains(port) {
            let k = choose|k: int| 0 <= k < now.seen.len() && now.seen[k] == port;
            if k < before.seen.len() {
                assert(before.seen[k] == port);
            }
            assert(lines[n].len() > 0 && lines[n][0] == 'n');
        } else {
            assert forall|i: int| 0 <= i < lines.len() implies !((#[trigger] lines[i]).len() > 0
                && lines[i][0] == 'n' && listeners::port_in(lines[i].skip(1)) == Some(port)) by {
                if i < n {
                    assert(front[i] == lines[i]);
                } else if lines[i].len() > 0 && lines[i][0] == 'n' && listeners::port_in(
                    lines[i].skip(1),
                ) == Some(port) {
                    assert(now.seen[before.seen.len() as int] == port);
                }
            }
        }
    }
}

/// A process, its command and a binding in a report make a listener: of that port, with that
/// command and process, unless the port was bound before or the command is one of the operating
/// system's that are never shared.
pub proof fn bindings_make_listeners(
    lines: Seq<Seq<char>>,
    pid: Seq<char>,
    command: Seq<char>,
    binding: Seq<char>,
)
    ensures
        ({
            let before = listeners::scan_lines(lines);
            let now = listeners::scan_lines(
                lines.push(seq!['p'] + pid).push(seq!['c'] + command).push(seq!['n'] + binding),
            );
            let lower = std_calls::lowercase(command);
            let never = lower == "controlcenter"@ || lower == "microsoft edge helper"@ || lower
                == "rapportd"@ || lower == "sharingd"@;
            match listeners::port_in(binding) {
                Some(port) => now.found == if before.seen.contains(port) || never {
                    before.found
                } else {
                    before.found.push(ListenerModel { port, command, pid })
                },
                None => now.found == before.found,
            }
        }),
{
    let l1 = lines.push(seq!['p'] + pid);
    let l2 = l1.push(seq!['c'] + command);
    let l3 = l2.push(seq!['n'] + binding);
    assert(l1.drop_last() =~= lines);
    assert(l2.drop_last() =~= l1);
    assert(l3.drop_last() =~= l2);
    assert((seq!['p'] + pid).skip(1) =~= pid);
    assert((seq!['c'] + command).skip(1) =~= command);
    assert((seq!['n'] + binding).skip(1) =~= binding);
    let s1 = listeners::scan_lines(l1);
    let s2 = listeners::scan_lines(l2);
    assert(s1 == listeners::scan_line(listeners::scan_lines(lines), seq!['p'] + pid));
    assert(s2 == listeners::scan_line(s1, seq!['c'] + command));
    assert(listeners::scan_lines(l3) == listeners::scan_line(s2, seq!['n'] + binding));
}

/// A process may have several bindings: each further one makes a listener of the same process and
/// command.
pub proof fn further_bindings_belong_to_the_process(lines: Seq<Seq<char>>, binding: Seq<char>)
    ensures
        ({
            let before = listeners::scan_lines(lines);
            let now = listeners::scan_lines(lines.push(seq!['n'] + binding));
            &&& now.pid == before.pid && now.command == before.command
            &&& now.found != before.found ==> now.found.len() == before.found.len() + 1
                && now.found.last().command == before.command && now.found.last().pid == before.pid
                && listeners::port_in(binding) == Some(now.found.last().port)
        }),
{
    let now = lines.push(seq!['n'] + binding);
    assert(now.drop_last() =~= lines);
    assert((seq!['n'] + binding).skip(1) =~= binding);
}

/// The listeners of a report are read from all of its lines.
pub proof fn reports_are_read_whole(report: Seq<u8>, lines: Seq<Seq<char>>)
    requires
        class::lines(std_calls::lossy_text(report)) == lines,
    ensures
        listeners::listeners_in(report) == listeners::scan_lines(lines).found,
{
}

} // verus!
