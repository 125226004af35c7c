//! What a share exposes, told by what it was asked for and what is configured.
use crate::config;
use crate::config::{ConfigModel, RouteConfigModel, ServiceConfigModel};
use crate::detect::classify::ServiceModel;
use crate::order;
use crate::routes;
use crate::share::target;
use crate::share::target::{ProfileParts, TargetModel};
use crate::text::number;
use crate::text::search;
use vstd::prelude::*;
use vstd::utf8;

verus! {

/// Whether the service at `i` is the first of its name.
pub open spec fn first_named(services: Seq<ServiceConfigModel>, name: Seq<char>, i: int) -> bool {
    &&& 0 <= i < services.len() && services[i].name == name
    &&& forall|j: int| 0 <= j < i ==> (#[trigger] services[j]).name != name
}

/// Whether no service has that name.
pub open spec fn none_named(services: Seq<ServiceConfigModel>, name: Seq<char>) -> bool {
    forall|j: int| 0 <= j < services.len() ==> (#[trigger] services[j]).name != name
}

/// Whether the service at `i` is the first on its port.
pub open spec fn first_on(services: Seq<ServiceConfigModel>, port: u16, i: int) -> bool {
    &&& 0 <= i < services.len() && services[i].port == port
    &&& forall|j: int| 0 <= j < i ==> (#[trigger] services[j]).port != port
}

/// Whether no service is on that port.
pub open spec fn none_on(services: Seq<ServiceConfigModel>, port: u16) -> bool {
    forall|j: int| 0 <= j < services.len() ==> (#[trigger] services[j]).port != port
}

/// Whether the detected service at `i` is the first on its port.
pub open spec fn first_detected(detected: Seq<ServiceModel>, port: u16, i: int) -> bool {
    &&& 0 <= i < detected.len() && detected[i].port == port
    &&& forall|j: int| 0 <= j < i ==> (#[trigger] detected[j]).port != port
}

/// Whether nothing was detected on that port.
pub open spec fn none_detected(detected: Seq<ServiceModel>, port: u16) -> bool {
    forall|j: int| 0 <= j < detected.len() ==> (#[trigger] detected[j]).port != port
}

/// A name finds the first service that has it, if there is one.
pub proof fn names_find_the_first_service(services: Seq<ServiceConfigModel>, name: Seq<char>)
    ensures
        match config::service_named(services, name) {
            Some(i) => first_named(services, name, i),
            None => none_named(services, name),
        },
    decreases services.len(),
{
    if services.len() > 0 && services[0].name != name {
        let rest = services.skip(1);
        names_find_the_first_service(rest, name);
        assert forall|j: int| 0 < j < services.len() implies #[trigger] services[j] == rest[j - 1] by {}
    }
}

/// A port finds the first service that is on it, if there is one.
pub proof fn ports_find_the_first_service(services: Seq<ServiceConfigModel>, port: u16)
    ensures
        match config::service_on(services, port) {
            Some(i) => first_on(services, port, i),
            None => none_on(services, port),
        },
    decreases services.len(),
{
    if services.len() > 0 && services[0].port != port {
        let rest = services.skip(1);
        ports_find_the_first_service(rest, port);
        assert forall|j: int| 0 < j < services.len() implies #[trigger] services[j] == rest[j - 1] by {}
    }
}

/// A port finds the first service that was detected on it, if there is one.
pub proof fn ports_find_what_was_detected(detected: Seq<ServiceModel>, port: u16)
    ensures
        match target::detected_on(detected, port) {
            Some(i) => first_detected(detected, port, i),
            None => none_detected(detected, port),
        },
    decreases detected.len(),
{
    if detected.len() > 0 && detected[0].port != port {
        let rest = detected.skip(1);
        ports_find_what_was_detected(rest, port);
        assert forall|j: int| 0 < j < detected.len() implies #[trigger] detected[j] == rest[j - 1] by {}
    }
}

/// Whether a target shares one port under every path, by this name and role, with the risk of what
/// was detected there.
pub open spec fn shares_one_port(
    t: TargetModel,
    name: Seq<char>,
    role: Seq<char>,
    port: u16,
    detected: Seq<ServiceModel>,
) -> bool {
    &&& t.label == name
    &&& t.description == role + " on port "@ + number::decimal(port as nat)
    &&& t.routes == seq![(seq!['/'], port)]
    &&& forall|i: int| #[trigger]
        first_detected(detected, port, i) ==> t.risky == detected[i].risky && t.risk_reason
            == detected[i].risk_reason
    &&& none_detected(detected, port) ==> !t.risky && t.risk_reason is None
}

proof fn lemma_service_target(
    name: Seq<char>,
    role: Seq<char>,
    port: u16,
    detected: Seq<ServiceModel>,
)
    ensures
        shares_one_port(
            target::service_target(name, role, port, detected),
            name,
            role,
            port,
            detected,
        ),
{
    reveal_strlit("/");
    assert("/"@ =~= seq!['/']);
    ports_find_what_was_detected(detected, port);
    let t = target::service_target(name, role, port, detected);
    assert forall|i: int| #[trigger] first_detected(detected, port, i) implies t.risky
        == detected[i].risky && t.risk_reason == detected[i].risk_reason by {
        match target::detected_on(detected, port) {
            Some(k) => {
                if k < i {
                    assert(detected[k].port != port);
                } else if i < k {
                    assert(detected[i].port != port);
                }
            },
            None => {
                assert(detected[i].port != port);
            },
        }
    }
    if none_detected(detected, port) {
        if let Some(k) = target::detected_on(detected, port) {
            assert(detected[k].port != port);
        }
    }
}

/// What is asked for outweighs what is configured as the default: the target of a selector is the
/// same whatever the default and the protection are.
pub proof fn selectors_outweigh_the_default(
    selector: Seq<char>,
    config: ConfigModel,
    other: ConfigModel,
    detected: Seq<ServiceModel>,
)
    requires
        other.services == config.services,
        other.routes == config.routes,
    ensures
        target::target_for(Some(selector), other, detected) == target::target_for(
            Some(selector),
            config,
            detected,
        ),
{
}

/// Where nothing is asked for, the configured default is the selector, unless it is `auto`: then the
/// first detected service is shared, as it was detected, and nothing if there is none.
pub proof fn defaults_stand_in_for_selectors(config: ConfigModel, detected: Seq<ServiceModel>)
    ensures
        config.default_target != "auto"@ ==> target::target_for(None, config, detected)
            == target::target_for(Some(config.default_target), config, detected),
        config.default_target == "auto"@ && detected.len() > 0 ==> (target::target_for(
            None,
            config,
            detected,
        ) matches Ok(t) && {
            &&& t.label == detected[0].name
            &&& t.description == detected[0].role + " on port "@ + number::decimal(
                detected[0].port as nat,
            )
            &&& t.routes == seq![(seq!['/'], detected[0].port)]
            &&& t.risky == detected[0].risky
            &&& t.risk_reason == detected[0].risk_reason
        }),
        config.default_target == "auto"@ && detected.len() == 0 ==> target::target_for(
            None,
            config,
            detected,
        ) == Err::<TargetModel, Seq<char>>("no listening services available to share"@),
{
    reveal_strlit("/");
    assert("/"@ =~= seq!['/']);
}

/// A selector that spells a port shares that port, under the name and role of the first service that
/// is configured on it, or else as an app that is named after the port.
pub proof fn ports_are_shared(
    selector: Seq<char>,
    port: u16,
    config: ConfigModel,
    detected: Seq<ServiceModel>,
)
    requires
        number::decimal_value(selector) == Some(port as nat),
    ensures
        target::target_for(Some(selector), config, detected) matches Ok(t) && {
            &&& forall|i: int| #[trigger]
                first_on(config.services, port, i) ==> shares_one_port(
                    t,
                    config.services[i].name,
                    config.services[i].role,
                    port,
                    detected,
                )
            &&& none_on(config.services, port) ==> shares_one_port(
                t,
                "service-"@ + number::decimal(port as nat),
                "app"@,
                port,
                detected,
            )
        },
{
    ports_find_the_first_service(config.services, port);
    let t = target::port_target(port, config.services, detected);
    match config::service_on(config.services, port) {
        Some(k) => {
            lemma_service_target(config.services[k].name, config.services[k].role, port, detected);
            assert forall|i: int| #[trigger] first_on(config.services, port, i) implies i == k by {
                if k < i {
                    assert(config.services[k].port != port);
                } else if i < k {
                    assert(config.services[i].port != port);
                }
            }
            if none_on(config.services, port) {
                assert(config.services[k].port != port);
            }
        },
        None => {
            lemma_service_target(
                "service-"@ + number::decimal(port as nat),
                "app"@,
                port,
                detected,
            );
            assert forall|i: int| !(#[trigger] first_on(config.services, port, i)) by {
                if first_on(config.services, port, i) {
                    assert(config.services[i].port != port);
                }
            }
        },
    }
}

/// Whether a selector spells a port.
pub open spec fn spells_a_port(selector: Seq<char>) -> bool {
    number::decimal_value(selector) matches Some(n) && n <= 65535
}

/// A selector that spells no port and names a service shares the first service of that name, on its
/// port.
pub proof fn services_are_shared_by_name(
    selector: Seq<char>,
    config: ConfigModel,
    detected: Seq<ServiceModel>,
    i: int,
)
    requires
        !spells_a_port(selector),
        first_named(config.services, selector, i),
    ensures
        target::target_for(Some(selector), config, detected) matches Ok(t) && shares_one_port(
            t,
            selector,
            config.services[i].role,
            config.services[i].port,
            detected,
        ),
{
    names_find_the_first_service(config.services, selector);
    match config::service_named(config.services, selector) {
        Some(k) => {
            if k < i {
                assert(config.services[k].name != selector);
            } else if i < k {
                assert(config.services[i].name != selector);
            }
            lemma_service_target(
                selector,
                config.services[i].role,
                config.services[i].port,
                detected,
            );
        },
        None => {
            assert(config.services[i].name != selector);
        },
    }
}

/// A selector that spells no port and names neither a service nor a route profile is refused.
pub proof fn unknown_selectors_are_refused(
    selector: Seq<char>,
    config: ConfigModel,
    detected: Seq<ServiceModel>,
)
    requires
        !spells_a_port(selector),
        none_named(config.services, selector),
        forall|k: int| 0 <= k < config.routes.len() ==> (#[trigger] config.routes[k]).profile
            != selector,
    ensures
        target::target_for(Some(selector), config, detected) == Err::<TargetModel, Seq<char>>(
            "could not find a service, port, or route profile named '"@ + selector + "'"@,
        ),
{
    names_find_the_first_service(config.services, selector);
    if let Some(k) = config::service_named(config.services, selector) {
        assert(config.services[k].name != selector);
    }
    profiles_are_their_routes(config.routes, selector);
    let profile = config::profile_routes(config.routes, selector);
    if profile.len() > 0 {
        assert(profile.contains(profile[0]));
        let k = choose|k: int| 0 <= k < config.routes.len() && config.routes[k] == profile[0];
        assert(config.routes[k].profile != selector);
    }
}

/// A route profile is made of the routes that carry its name, and of no others.
pub proof fn profiles_are_their_routes(routes: Seq<RouteConfigModel>, profile: Seq<char>)
    ensures
        forall|r: RouteConfigModel| #[trigger]
            config::profile_routes(routes, profile).contains(r) <==> routes.contains(r) && r.profile
                == profile,
    decreases routes.len(),
{
    let now = config::profile_routes(routes, profile);
    if routes.len() > 0 {
        let front = routes.drop_last();
        profiles_are_their_routes(front, profile);
        let before = config::profile_routes(front, profile);
        assert(routes =~= front.push(routes.last()));
        assert forall|r: RouteConfigModel| #[trigger] now.contains(r) <==> routes.contains(r)
            && r.profile == profile by {
            lemma_pushed(front, routes.last(), r);
            lemma_pushed(before, routes.last(), r);
            assert(before.contains(r) <==> front.contains(r) && r.profile == profile);
        }
    }
}

proof fn lemma_pushed<T>(s: Seq<T>, x: T, y: T)
    ensures
        s.push(x).contains(y) <==> s.contains(y) || x == y,
{
    if s.contains(y) {
        let i = choose|i: int| 0 <= i < s.len() && s[i] == y;
        assert(s.push(x)[i] == y);
    }
    if x == y {
        assert(s.push(x)[s.len() as int] == y);
    }
    if s.push(x).contains(y) {
        let i = choose|i: int| 0 <= i < s.push(x).len() && s.push(x)[i] == y;
        if i < s.len() {
            assert(s[i] == y);
        }
    }
}

/// What the parts of a profile are: one route for each of its own, with the port of the first
/// service of that name; risky if anything risky was detected on one of the ports.
proof fn lemma_profile_parts(
    profile: Seq<RouteConfigModel>,
    services: Seq<ServiceConfigModel>,
    detected: Seq<ServiceModel>,
)
    ensures
        match target::profile_parts(profile, services, detected) {
            Ok(parts) => {
                &&& parts.routes.len() == profile.len()
                &&& forall|n: int| 0 <= n < profile.len() ==> #[trigger]
                    goes_to(profile[n], parts.routes[n], services)
                &&& parts.risky <==> exists|n: int|
                    0 <= n < profile.len() && #[trigger] risk_on(parts.routes[n].1, detected)
            },
            Err(e) => exists|n: int|
                0 <= n < profile.len() && #[trigger] none_named(services, profile[n].service) && e
                    == missing_service(profile[n]),
        },
        target::profile_parts(profile, services, detected) matches Ok(parts) ==> (!parts.risky
            ==> parts.reasons.len() == 0),
    decreases profile.len(),
{
    if profile.len() > 0 {
        let front = profile.drop_last();
        let last = profile.len() - 1;
        lemma_profile_parts(front, services, detected);
        match target::profile_parts(front, services, detected) {
            Err(e) => {
                let n = choose|n: int|
                    0 <= n < front.len() && #[trigger] none_named(services, front[n].service) && e
                        == missing_service(front[n]);
                assert(none_named(services, profile[n].service));
            },
            Ok(before) => {
                names_find_the_first_service(services, profile[last].service);
                match config::service_named(services, profile[last].service) {
                    None => {
                        assert(none_named(services, profile[last].service));
                    },
                    Some(i) => {
                        let port = services[i].port;
                        let parts = target::with_route(before, profile[last], port, detected);
                        ports_find_what_was_detected(detected, port);
                        lemma_risk_on(port, detected);
                        assert(parts.routes[last] == (profile[last].path, port));
                        assert(forall|n: int|
                            0 <= n < last ==> parts.routes[n] == #[trigger] before.routes[n]);
                        assert forall|n: int| 0 <= n < profile.len() implies #[trigger] goes_to(
                            profile[n],
                            parts.routes[n],
                            services,
                        ) by {
                            if n < last {
                                assert(goes_to(front[n], before.routes[n], services));
                            } else {
                                assert(first_named(services, profile[last].service, i));
                            }
                        }
                        if before.risky {
                            let n = choose|n: int|
                                0 <= n < front.len() && #[trigger] risk_on(
                                    before.routes[n].1,
                                    detected,
                                );
                            assert(risk_on(parts.routes[n].1, detected));
                        }
                        if risk_on(port, detected) {
                            assert(risk_on(parts.routes[last].1, detected));
                        }
                        if exists|n: int|
                            0 <= n < profile.len() && #[trigger] risk_on(
                                parts.routes[n].1,
                                detected,
                            ) {
                            let n = choose|n: int|
                                0 <= n < profile.len() && #[trigger] risk_on(
                                    parts.routes[n].1,
                                    detected,
                                );
                            if n < last {
                                assert(risk_on(before.routes[n].1, detected));
                            }
                        }
                    },
                }
            },
        }
    }
}

/// The refusal of a profile with a route whose service is not configured.
pub open spec fn missing_service(route: RouteConfigModel) -> Seq<char> {
    "route '"@ + route.path + "' references missing service '"@ + route.service + "'"@
}

proof fn lemma_first_detected(detected: Seq<ServiceModel>, port: u16, k: int)
    requires
        first_detected(detected, port, k),
    ensures
        target::detected_on(detected, port) == Some(k),
{
    ports_find_what_was_detected(detected, port);
    match target::detected_on(detected, port) {
        Some(i) => {
            if k < i {
                assert(detected[k].port != port);
            } else if i < k {
                assert(detected[i].port != port);
            }
        },
        None => {
            assert(detected[k].port != port);
        },
    }
}

/// Whether a text tells the risk of a route: its path, and why what was detected first on its port is
/// risky.
pub open spec fn tells_risk(
    text: Seq<char>,
    route: (Seq<char>, u16),
    detected: Seq<ServiceModel>,
) -> bool {
    exists|i: int| #[trigger]
        first_detected(detected, route.1, i) && detected[i].risky && (
        detected[i].risk_reason matches Some(reason) && text == route.0 + " -> "@ + reason)
}

/// Whether reasons tell the risks of routes, all of them and nothing else.
pub open spec fn tell_the_risks(
    reasons: Seq<Seq<char>>,
    routes: Seq<(Seq<char>, u16)>,
    detected: Seq<ServiceModel>,
) -> bool {
    &&& forall|text: Seq<char>, route: (Seq<char>, u16)|
        routes.contains(route) && #[trigger] tells_risk(text, route, detected) ==> reasons.contains(
            text,
        )
    &&& forall|text: Seq<char>| #[trigger]
        reasons.contains(text) ==> exists|route: (Seq<char>, u16)|
            routes.contains(route) && #[trigger] tells_risk(text, route, detected)
}

proof fn lemma_profile_reasons(
    profile: Seq<RouteConfigModel>,
    services: Seq<ServiceConfigModel>,
    detected: Seq<ServiceModel>,
)
    ensures
        target::profile_parts(profile, services, detected) matches Ok(parts) ==> tell_the_risks(
            parts.reasons,
            parts.routes,
            detected,
        ),
    decreases profile.len(),
{
    if profile.len() > 0 {
        let front = profile.drop_last();
        lemma_profile_reasons(front, services, detected);
        if let Ok(before) = target::profile_parts(front, services, detected) {
            if let Some(k) = config::service_named(services, profile.last().service) {
                let port = services[k].port;
                let parts = target::with_route(before, profile.last(), port, detected);
                let own = (profile.last().path, port);
                ports_find_what_was_detected(detected, port);
                assert forall|text: Seq<char>, route: (Seq<char>, u16)|
                    parts.routes.contains(route) && #[trigger] tells_risk(
                        text,
                        route,
                        detected,
                    ) implies parts.reasons.contains(text) by {
                    lemma_pushed(before.routes, own, route);
                    if before.routes.contains(route) {
                        assert(before.reasons.contains(text));
                        lemma_pushed(before.reasons, parts.reasons.last(), text);
                    } else {
                        let i = choose|i: int| #[trigger]
                            first_detected(detected, route.1, i) && detected[i].risky && (
                            detected[i].risk_reason matches Some(reason) && text == route.0
                                + " -> "@ + reason);
                        lemma_first_detected(detected, port, i);
                        lemma_pushed(before.reasons, text, text);
                    }
                }
                assert forall|text: Seq<char>| #[trigger]
                    parts.reasons.contains(text) implies exists|route: (Seq<char>, u16)|
                    parts.routes.contains(route) && #[trigger] tells_risk(
                        text,
                        route,
                        detected,
                    ) by {
                    if before.reasons.contains(text) {
                        let route = choose|route: (Seq<char>, u16)|
                            before.routes.contains(route) && #[trigger] tells_risk(
                                text,
                                route,
                                detected,
                            );
                        lemma_pushed(before.routes, own, route);
                    } else {
                        lemma_pushed(before.reasons, parts.reasons.last(), text);
                        lemma_pushed(before.routes, own, own);
                        let i = target::detected_on(detected, port)->0;
                        assert(first_detected(detected, own.1, i));
                        assert(tells_risk(text, own, detected));
                    }
                }
            }
        }
    }
}

/// Whether a route of a share is that of a profile: its path, with the port of the first service
/// that has the name it gives.
pub open spec fn goes_to(
    configured: RouteConfigModel,
    route: (Seq<char>, u16),
    services: Seq<ServiceConfigModel>,
) -> bool {
    &&& route.0 == configured.path
    &&& exists|i: int| #[trigger]
        first_named(services, configured.service, i) && route.1 == services[i].port
}

/// Whether what was detected first on a port is risky.
pub open spec fn risk_on(port: u16, detected: Seq<ServiceModel>) -> bool {
    exists|i: int| #[trigger] first_detected(detected, port, i) && detected[i].risky
}

proof fn lemma_risk_on(port: u16, detected: Seq<ServiceModel>)
    ensures
        risk_on(port, detected) <==> (target::detected_on(detected, port) matches Some(i)
            && detected[i].risky),
{
    ports_find_what_was_detected(detected, port);
    if risk_on(port, detected) {
        let i = choose|i: int| #[trigger]
            first_detected(detected, port, i) && detected[i].risky;
        match target::detected_on(detected, port) {
            Some(k) => {
                if k < i {
                    assert(detected[k].port != port);
                } else if i < k {
                    assert(detected[i].port != port);
                }
            },
            None => {
                assert(detected[i].port != port);
            },
        }
    }
}

proof fn lemma_same_members(
    reasons: Seq<Seq<char>>,
    routes: Seq<(Seq<char>, u16)>,
    listed: Seq<(Seq<char>, u16)>,
    detected: Seq<ServiceModel>,
)
    requires
        tell_the_risks(reasons, routes, detected),
        forall|x: (Seq<char>, u16)| #[trigger] routes.contains(x) <==> listed.contains(x),
    ensures
        tell_the_risks(reasons, listed, detected),
        reasons.len() == 0 ==> reasons == Seq::<Seq<char>>::empty(),
{
    assert forall|text: Seq<char>, route: (Seq<char>, u16)|
        listed.contains(route) && #[trigger] tells_risk(
            text,
            route,
            detected,
        ) implies reasons.contains(text) by {
        assert(routes.contains(route));
    }
    assert forall|text: Seq<char>| #[trigger] reasons.contains(text) implies exists|
        route: (Seq<char>, u16),
    |
        listed.contains(route) && #[trigger] tells_risk(text, route, detected) by {
        let route = choose|route: (Seq<char>, u16)|
            routes.contains(route) && #[trigger] tells_risk(text, route, detected);
        assert(listed.contains(route));
    }
}

/// Whether a route of a share comes from a profile.
pub open spec fn comes_from(
    route: (Seq<char>, u16),
    config: ConfigModel,
    profile: Seq<char>,
) -> bool {
    exists|r: RouteConfigModel|
        config.routes.contains(r) && r.profile == profile && #[trigger] goes_to(
            r,
            route,
            config.services,
        )
}

/// Whether a configured route is among the routes of a share.
pub open spec fn has_route(
    shared: Seq<(Seq<char>, u16)>,
    configured: RouteConfigModel,
    services: Seq<ServiceConfigModel>,
) -> bool {
    exists|route: (Seq<char>, u16)|
        shared.contains(route) && #[trigger] goes_to(configured, route, services)
}

/// Whether one of the routes of a share leads to something risky.
pub open spec fn has_risk(shared: Seq<(Seq<char>, u16)>, detected: Seq<ServiceModel>) -> bool {
    exists|route: (Seq<char>, u16)|
        shared.contains(route) && #[trigger] risk_on(route.1, detected)
}

proof fn lemma_members(
    profile: Seq<RouteConfigModel>,
    parts: ProfileParts,
    listed: Seq<(Seq<char>, u16)>,
    config: ConfigModel,
    selector: Seq<char>,
    detected: Seq<ServiceModel>,
)
    requires
        profile == config::profile_routes(config.routes, selector),
        target::profile_parts(profile, config.services, detected) == Ok::<ProfileParts, Seq<char>>(
            parts,
        ),
        forall|x: (Seq<char>, u16)| #[trigger] parts.routes.contains(x) <==> listed.contains(x),
    ensures
        forall|r: RouteConfigModel| #[trigger]
            config.routes.contains(r) && r.profile == selector ==> has_route(
                listed,
                r,
                config.services,
            ),
        forall|x: (Seq<char>, u16)| #[trigger]
            listed.contains(x) ==> comes_from(x, config, selector),
        parts.risky <==> has_risk(listed, detected),
{
    let all = parts.routes;
    lemma_profile_parts(profile, config.services, detected);
    profiles_are_their_routes(config.routes, selector);
    assert forall|r: RouteConfigModel| #[trigger]
        config.routes.contains(r) && r.profile == selector implies has_route(
        listed,
        r,
        config.services,
    ) by {
        assert(profile.contains(r));
        let p = choose|p: int| 0 <= p < profile.len() && profile[p] == r;
        assert(goes_to(profile[p], all[p], config.services));
        assert(all.contains(all[p]));
        assert(listed.contains(all[p]));
    }
    assert forall|x: (Seq<char>, u16)| #[trigger] listed.contains(x) implies comes_from(
        x,
        config,
        selector,
    ) by {
        assert(all.contains(x));
        let p = choose|p: int| 0 <= p < all.len() && all[p] == x;
        assert(goes_to(profile[p], all[p], config.services));
        assert(profile.contains(profile[p]));
    }
    if parts.risky {
        let p = choose|p: int|
            0 <= p < profile.len() && #[trigger] risk_on(parts.routes[p].1, detected);
        assert(all.contains(all[p]));
        assert(listed.contains(all[p]));
        assert(risk_on(all[p].1, detected));
    }
    if has_risk(listed, detected) {
        let x = choose|x: (Seq<char>, u16)|
            listed.contains(x) && #[trigger] risk_on(x.1, detected);
        assert(all.contains(x));
        let p = choose|p: int| 0 <= p < all.len() && all[p] == x;
        assert(risk_on(parts.routes[p].1, detected));
    }
}

/// A selector that spells no port, names no service and is the name of a route profile shares the
/// profile: under its name, with a route for each of its routes and none besides, longer paths
/// first, each to the port of the first service of the name that it gives; and it is risky exactly
/// if something risky was detected on one of these ports, and then all that is known of the risks is
/// told. If one of the services is not configured,
/// nothing is shared, and nothing is refused for another reason.
pub proof fn profiles_are_shared_whole(
    selector: Seq<char>,
    config: ConfigModel,
    detected: Seq<ServiceModel>,
    some: RouteConfigModel,
)
    requires
        !spells_a_port(selector),
        none_named(config.services, selector),
        config.routes.contains(some),
        some.profile == selector,
    ensures
        match target::target_for(Some(selector), config, detected) {
            Ok(t) => {
                &&& t.label == selector
                &&& forall|r: RouteConfigModel| #[trigger]
                    config.routes.contains(r) && r.profile == selector ==> has_route(
                        t.routes,
                        r,
                        config.services,
                    )
                &&& forall|x: (Seq<char>, u16)| #[trigger]
                    t.routes.contains(x) ==> comes_from(x, config, selector)
                &&& forall|m: int, n: int|
                    0 <= m < n < t.routes.len() ==> utf8::encode_utf8(
                        (#[trigger] t.routes[m]).0,
                    ).len() >= utf8::encode_utf8((#[trigger] t.routes[n]).0).len()
                &&& t.risky <==> has_risk(t.routes, detected)
                &&& match t.risk_reason {
                    None => tell_the_risks(seq![], t.routes, detected),
                    Some(text) => exists|reasons: Seq<Seq<char>>|
                        reasons.len() > 0 && #[trigger] tell_the_risks(reasons, t.routes, detected)
                            && text == search::joined(reasons, ", "@),
                }
                &&& t.description == "route profile with "@ + number::decimal(t.routes.len())
                    + " mappings"@
            },
            Err(e) => exists|r: RouteConfigModel|
                config.routes.contains(r) && r.profile == selector && #[trigger] none_named(
                    config.services,
                    r.service,
                ) && e == missing_service(r),
        },
{
    names_find_the_first_service(config.services, selector);
    if let Some(k) = config::service_named(config.services, selector) {
        assert(config.services[k].name != selector);
    }
    profiles_are_their_routes(config.routes, selector);
    let profile = config::profile_routes(config.routes, selector);
    assert(profile.contains(some));
    assert(profile.len() > 0);
    match target::profile_parts(profile, config.services, detected) {
        Err(e) => {
            lemma_profile_parts(profile, config.services, detected);
            let n = choose|n: int|
                0 <= n < profile.len() && #[trigger] none_named(
                    config.services,
                    profile[n].service,
                ) && e == missing_service(profile[n]);
            assert(profile.contains(profile[n]));
        },
        Ok(parts) => {
            let listed = order::sorted(parts.routes, routes::longer_path());
            order::sorting_keeps_members(parts.routes, routes::longer_path());
            lemma_members(profile, parts, listed, config, selector, detected);
            lemma_profile_reasons(profile, config.services, detected);
            lemma_same_members(parts.reasons, parts.routes, listed, detected);
            order::sorting_keeps_elements(parts.routes, routes::longer_path());
            routes::routes_are_sorted_by_length(parts.routes);
        },
    }
}

} // verus!
