//! What a share exposes: a service, a port or a route profile.
use crate::config;
use crate::config::{Config, ConfigModel, RouteConfig, RouteConfigModel, ServiceConfig, ServiceConfigModel};
use crate::detect::classify;
use crate::detect::classify::{DetectedService, ServiceModel};
use crate::order;
use crate::routes;
use crate::routes::{sort_routes, ShareRoute};
use crate::text::chars;
use crate::text::chars::{copy_opt, same};
use crate::text::number;
use crate::text::number::to_decimal;
use crate::text::search;
use crate::text::search::join;
use crate::text::std_calls::parse_u16;
use vstd::prelude::*;

verus! {

/// What a share exposes.
#[derive(Debug)]
pub struct ShareTarget {
    pub label: String,
    pub description: String,
    pub routes: Vec<ShareRoute>,
    pub risky: bool,
    pub risk_reason: Option<String>,
}

/// What a share exposes.
pub struct TargetModel {
    pub label: Seq<char>,
    pub description: Seq<char>,
    pub routes: Seq<(Seq<char>, u16)>,
    pub risky: bool,
    pub risk_reason: Option<Seq<char>>,
}

impl View for ShareTarget {
    type V = TargetModel;

    open spec fn view(&self) -> TargetModel {
        TargetModel {
            label: self.label@,
            description: self.description@,
            routes: routes::route_list(self.routes@),
            risky: self.risky,
            risk_reason: chars::opt_text(self.risk_reason),
        }
    }
}

impl Clone for ShareTarget {
    fn clone(&self) -> (r: ShareTarget)
        ensures
            r@ == self@,
    {
        let mut copies: Vec<ShareRoute> = Vec::new();
        let mut i: usize = 0;
        while i < self.routes.len()
            invariant
                i <= self.routes@.len(),
                copies@.len() == i,
                forall|j: int| 0 <= j < i ==> (#[trigger] copies@[j])@ == self.routes@[j]@,
            decreases self.routes@.len() - i,
        {
            copies.push(self.routes[i].clone());
            i += 1;
        }
        assert(routes::route_list(copies@) =~= routes::route_list(self.routes@));
        ShareTarget {
            label: self.label.clone(),
            description: self.description.clone(),
            routes: copies,
            risky: self.risky,
            risk_reason: copy_opt(&self.risk_reason),
        }
    }
}

/// The position of the first detected service on `port`.
pub open spec fn detected_on(detected: Seq<ServiceModel>, port: u16) -> Option<int>
    decreases detected.len(),
{
    if detected.len() == 0 {
        None
    } else if detected[0].port == port {
        Some(0)
    } else {
        match detected_on(detected.skip(1), port) {
            Some(i) => Some(i + 1),
            None => None,
        }
    }
}

/// A target with one service, which answers for every path.
pub open spec fn one_service(
    name: Seq<char>,
    role: Seq<char>,
    port: u16,
    risky: bool,
    risk_reason: Option<Seq<char>>,
) -> TargetModel {
    TargetModel {
        label: name,
        description: role + " on port "@ + number::decimal(port as nat),
        routes: seq![("/"@, port)],
        risky,
        risk_reason,
    }
}

/// A configured service as a target; it is as risky as what was detected on its port.
pub open spec fn service_target(
    name: Seq<char>,
    role: Seq<char>,
    port: u16,
    detected: Seq<ServiceModel>,
) -> TargetModel {
    match detected_on(detected, port) {
        Some(i) => one_service(name, role, port, detected[i].risky, detected[i].risk_reason),
        None => one_service(name, role, port, false, None),
    }
}

/// A port as a target: the configured service on it, or else an app with a made-up name.
pub open spec fn port_target(
    port: u16,
    services: Seq<ServiceConfigModel>,
    detected: Seq<ServiceModel>,
) -> TargetModel {
    match config::service_on(services, port) {
        Some(i) => service_target(services[i].name, services[i].role, port, detected),
        None => service_target(
            "service-"@ + number::decimal(port as nat),
            "app"@,
            port,
            detected,
        ),
    }
}

/// What the routes of a profile come to.
pub struct ProfileParts {
    pub routes: Seq<(Seq<char>, u16)>,
    pub risky: bool,
    pub reasons: Seq<Seq<char>>,
}

/// What one route adds to a profile: its path with the port of its service, and the risk of what
/// was detected on that port.
pub open spec fn with_route(
    parts: ProfileParts,
    route: RouteConfigModel,
    port: u16,
    detected: Seq<ServiceModel>,
) -> ProfileParts {
    let routes = parts.routes.push((route.path, port));
    match detected_on(detected, port) {
        Some(i) => if detected[i].risky {
            ProfileParts {
                routes,
                risky: true,
                reasons: match detected[i].risk_reason {
                    Some(reason) => parts.reasons.push(route.path + " -> "@ + reason),
                    None => parts.reasons,
                },
            }
        } else {
            ProfileParts { routes, ..parts }
        },
        None => ProfileParts { routes, ..parts },
    }
}

/// What the routes of a profile come to, up to the first whose service is not configured.
pub open spec fn profile_parts(
    profile: Seq<RouteConfigModel>,
    services: Seq<ServiceConfigModel>,
    detected: Seq<ServiceModel>,
) -> Result<ProfileParts, Seq<char>>
    decreases profile.len(),
{
    if profile.len() == 0 {
        Ok(ProfileParts { routes: seq![], risky: false, reasons: seq![] })
    } else {
        match profile_parts(profile.drop_last(), services, detected) {
            Err(e) => Err(e),
            Ok(parts) => match config::service_named(services, profile.last().service) {
                None => Err(
                    "route '"@ + profile.last().path + "' references missing service '"@
                        + profile.last().service + "'"@,
                ),
                Some(i) => Ok(with_route(parts, profile.last(), services[i].port, detected)),
            },
        }
    }
}

/// A route profile as a target, longer paths first.
pub open spec fn profile_target(
    name: Seq<char>,
    profile: Seq<RouteConfigModel>,
    services: Seq<ServiceConfigModel>,
    detected: Seq<ServiceModel>,
) -> Result<TargetModel, Seq<char>> {
    match profile_parts(profile, services, detected) {
        Err(e) => Err(e),
        Ok(parts) => Ok(
            TargetModel {
                label: name,
                description: "route profile with "@ + number::decimal(parts.routes.len())
                    + " mappings"@,
                routes: order::sorted(parts.routes, routes::longer_path()),
                risky: parts.risky,
                risk_reason: if parts.reasons.len() == 0 {
                    None
                } else {
                    Some(search::joined(parts.reasons, ", "@))
                },
            },
        ),
    }
}

/// What is asked for: the selector, or else the configured default if it names something.
pub open spec fn wanted(selector: Option<Seq<char>>, default_target: Seq<char>) -> Option<
    Seq<char>,
> {
    if selector is Some {
        selector
    } else if default_target != "auto"@ {
        Some(default_target)
    } else {
        None
    }
}

/// The target of a share. A selector is a port, else a service's name, else a route profile's;
/// without one the first detected service is shared.
pub open spec fn target_for(
    selector: Option<Seq<char>>,
    config: ConfigModel,
    detected: Seq<ServiceModel>,
) -> Result<TargetModel, Seq<char>> {
    match wanted(selector, config.default_target) {
        Some(name) => if number::decimal_up_to(name, u16::MAX as nat) is Some {
            Ok(
                port_target(
                    number::decimal_up_to(name, u16::MAX as nat)->0 as u16,
                    config.services,
                    detected,
                ),
            )
        } else {
            match config::service_named(config.services, name) {
                Some(i) => Ok(
                    service_target(
                        config.services[i].name,
                        config.services[i].role,
                        config.services[i].port,
                        detected,
                    ),
                ),
                None => {
                    let profile = config::profile_routes(config.routes, name);
                    if profile.len() > 0 {
                        profile_target(name, profile, config.services, detected)
                    } else {
                        Err(
                            "could not find a service, port, or route profile named '"@ + name
                                + "'"@,
                        )
                    }
                },
            }
        },
        None => if detected.len() > 0 {
            Ok(
                one_service(
                    detected[0].name,
                    detected[0].role,
                    detected[0].port,
                    detected[0].risky,
                    detected[0].risk_reason,
                ),
            )
        } else {
            Err("no listening services available to share"@)
        },
    }
}

/// A target with one service, which answers for every path.
fn make_target(
    name: &str,
    role: &str,
    port: u16,
    risky: bool,
    risk_reason: Option<String>,
) -> (r: ShareTarget)
    ensures
        r@ == one_service(name@, role@, port, risky, chars::opt_text(risk_reason)),
{
    let mut all: Vec<ShareRoute> = Vec::new();
    all.push(ShareRoute { path: "/".to_owned(), upstream_port: port });
    assert(routes::route_list(all@) =~= seq![("/"@, port)]);
    ShareTarget {
        label: name.to_owned(),
        description: role.to_owned().concat(" on port ").concat(to_decimal(port as u64).as_str()),
        routes: all,
        risky,
        risk_reason,
    }
}

/// The position of the first detected service on `port`.
fn find_detected(detected: &[DetectedService], port: u16) -> (r: Option<usize>)
    ensures
        match r {
            Some(i) => i < detected@.len() && detected_on(
                classify::service_list(detected@),
                port,
            ) == Some(i as int),
            None => detected_on(classify::service_list(detected@), port) is None,
        },
{
    let ghost all = classify::service_list(detected@);
    let mut i: usize = 0;
    assert(all.skip(0) =~= all);
    while i < detected.len()
        invariant
            i <= detected@.len(),
            all == classify::service_list(detected@),
            detected_on(all, port) == match detected_on(all.skip(i as int), port) {
                Some(j) => Some(i + j),
                None => None,
            },
        decreases detected@.len() - i,
    {
        assert(all.skip(i as int).skip(1) =~= all.skip(i + 1));
        assert(all.skip(i as int)[0] == detected@[i as int]@);
        if detected[i].port == port {
            return Some(i);
        }
        i += 1;
    }
    None
}

/// A service of a given name, role and port as a target.
fn target_of_service(
    name: &str,
    role: &str,
    port: u16,
    detected: &[DetectedService],
) -> (r: ShareTarget)
    ensures
        r@ == service_target(name@, role@, port, classify::service_list(detected@)),
{
    match find_detected(detected, port) {
        Some(i) => make_target(
            name,
            role,
            port,
            detected[i].risky,
            copy_opt(&detected[i].risk_reason),
        ),
        None => make_target(name, role, port, false, None),
    }
}

/// A configured service as a target.
pub fn single_service_target(service: &ServiceConfig, detected: &[DetectedService]) -> (r:
    ShareTarget)
    ensures
        r@ == service_target(
            service@.name,
            service@.role,
            service.port,
            classify::service_list(detected@),
        ),
{
    target_of_service(service.name.as_str(), service.role.as_str(), service.port, detected)
}

/// A port as a target.
pub fn single_service_target_from_port(
    port: u16,
    config: &Config,
    detected: &[DetectedService],
) -> (r: ShareTarget)
    ensures
        r@ == port_target(port, config@.services, classify::service_list(detected@)),
{
    match config.service_by_port(port) {
        Some(service) => {
            proof {
                lemma_service_on(config@.services, port);
            }
            single_service_target(service, detected)
        },
        None => {
            let name = "service-".to_owned().concat(to_decimal(port as u64).as_str());
            target_of_service(name.as_str(), "app", port, detected)
        },
    }
}

proof fn lemma_service_on(services: Seq<ServiceConfigModel>, port: u16)
    ensures
        config::service_on(services, port) matches Some(i) ==> 0 <= i < services.len()
            && services[i].port == port,
    decreases services.len(),
{
    if services.len() > 0 && services[0].port != port {
        lemma_service_on(services.skip(1), port);
    }
}

/// A route profile as a target.
pub fn build_profile_target(
    profile: &str,
    routes: Vec<&RouteConfig>,
    config: &Config,
    detected: &[DetectedService],
) -> (r: Result<ShareTarget, String>)
    ensures
        match r {
            Ok(t) => profile_target(
                profile@,
                config::route_views(routes@),
                config@.services,
                classify::service_list(detected@),
            ) == Ok::<TargetModel, Seq<char>>(t@),
            Err(e) => profile_target(
                profile@,
                config::route_views(routes@),
                config@.services,
                classify::service_list(detected@),
            ) == Err::<TargetModel, Seq<char>>(e@),
        },
{
    let ghost all = config::route_views(routes@);
    let ghost services = config@.services;
    let ghost found = classify::service_list(detected@);
    let mut share_routes: Vec<ShareRoute> = Vec::new();
    let mut risky = false;
    let mut reasons: Vec<String> = Vec::new();
    let mut i: usize = 0;
    assert(all.take(0) =~= Seq::<RouteConfigModel>::empty());
    assert(routes::route_list(share_routes@) =~= Seq::<(Seq<char>, u16)>::empty());
    assert(chars::texts(reasons@) =~= Seq::<Seq<char>>::empty());
    while i < routes.len()
        invariant
            i <= routes@.len(),
            all == config::route_views(routes@),
            services == config@.services,
            found == classify::service_list(detected@),
            profile_parts(all.take(i as int), services, found) == Ok::<ProfileParts, Seq<char>>(
                ProfileParts {
                    routes: routes::route_list(share_routes@),
                    risky,
                    reasons: chars::texts(reasons@),
                },
            ),
        decreases routes@.len() - i,
    {
        let route = routes[i];
        let ghost before_routes = share_routes@;
        let ghost before_reasons = reasons@;
        assert(all.take(i + 1).drop_last() =~= all.take(i as int));
        assert(all.take(i + 1).last() == route@);
        match config.service_by_name(route.service.as_str()) {
            None => {
                proof {
                    lemma_first_error_stays(all, i + 1, services, found);
                }
                return Err(
                    "route '".to_owned().concat(route.path.as_str()).concat(
                        "' references missing service '",
                    ).concat(route.service.as_str()).concat("'"),
                );
            },
            Some(service) => {
                if let Some(d) = find_detected(detected, service.port) {
                    assert(found[d as int] == detected@[d as int]@);
                    if detected[d].risky {
                        risky = true;
                        if let Some(reason) = &detected[d].risk_reason {
                            let text = route.path.clone().concat(" -> ").concat(reason.as_str());
                            reasons.push(text);
                            assert(chars::texts(reasons@) =~= chars::texts(before_reasons).push(
                                text@,
                            ));
                        }
                    }
                }
                let entry = ShareRoute { path: route.path.clone(), upstream_port: service.port };
                share_routes.push(entry);
                assert(routes::route_list(share_routes@) =~= routes::route_list(
                    before_routes,
                ).push(entry@));
            },
        }
        i += 1;
    }
    assert(all.take(all.len() as int) =~= all);
    let count = share_routes.len();
    Ok(
        ShareTarget {
            label: profile.to_owned(),
            description: "route profile with ".to_owned().concat(
                to_decimal(count as u64).as_str(),
            ).concat(" mappings"),
            routes: sort_routes(share_routes),
            risky,
            risk_reason: if reasons.len() == 0 {
                None
            } else {
                Some(join(&reasons, ", "))
            },
        },
    )
}

/// The first error in a profile is the error of the whole profile.
proof fn lemma_first_error_stays(
    profile: Seq<RouteConfigModel>,
    n: int,
    services: Seq<ServiceConfigModel>,
    detected: Seq<ServiceModel>,
)
    requires
        0 <= n <= profile.len(),
        profile_parts(profile.take(n), services, detected) is Err,
    ensures
        profile_parts(profile, services, detected) == profile_parts(
            profile.take(n),
            services,
            detected,
        ),
    decreases profile.len() - n,
{
    if n < profile.len() {
        assert(profile.take(n + 1).drop_last() =~= profile.take(n));
        lemma_first_error_stays(profile, n + 1, services, detected);
    } else {
        assert(profile.take(n) =~= profile);
    }
}

/// The target of a share.
pub fn resolve_target(
    selector: Option<&str>,
    config: &Config,
    detected: &[DetectedService],
) -> (r: Result<ShareTarget, String>)
    ensures
        match r {
            Ok(t) => target_for(
                chars::opt_str(selector),
                config@,
                classify::service_list(detected@),
            ) == Ok::<TargetModel, Seq<char>>(t@),
            Err(e) => target_for(
                chars::opt_str(selector),
                config@,
                classify::service_list(detected@),
            ) == Err::<TargetModel, Seq<char>>(e@),
        },
{
    let name = match selector {
        Some(s) => Some(s.to_owned()),
        None => if !same(config.default_share.target.as_str(), "auto") {
            Some(config.default_share.target.clone())
        } else {
            None
        },
    };
    if let Some(name) = name {
        if let Ok(port) = parse_u16(name.as_str()) {
            return Ok(single_service_target_from_port(port, config, detected));
        }
        if let Some(service) = config.service_by_name(name.as_str()) {
            return Ok(single_service_target(service, detected));
        }
        let profile = config.route_profile(name.as_str());
        if profile.len() > 0 {
            return build_profile_target(name.as_str(), profile, config, detected);
        }
        return Err(
            "could not find a service, port, or route profile named '".to_owned().concat(
                name.as_str(),
            ).concat("'"),
        );
    }
    if detected.len() > 0 {
        let service = &detected[0];
        assert(classify::service_list(detected@)[0] == service@);
        Ok(
            make_target(
                service.name.as_str(),
                service.role.as_str(),
                service.port,
                service.risky,
                copy_opt(&service.risk_reason),
            ),
        )
    } else {
        Err("no listening services available to share".to_owned())
    }
}

/// A target with a single service answers for every path.
pub proof fn single_service_answers_every_path(
    name: Seq<char>,
    role: Seq<char>,
    port: u16,
    detected: Seq<ServiceModel>,
    path: Seq<char>,
)
    ensures
        routes::best_route(path, service_target(name, role, port, detected).routes) is Some,
{
    routes::root_route_answers_everything(
        path,
        service_target(name, role, port, detected).routes,
        0,
    );
}

proof fn lemma_profile_keeps_every_route(
    profile: Seq<RouteConfigModel>,
    services: Seq<ServiceConfigModel>,
    detected: Seq<ServiceModel>,
)
    ensures
        profile_parts(profile, services, detected) matches Ok(parts) ==> parts.routes.len()
            == profile.len(),
    decreases profile.len(),
{
    if profile.len() > 0 {
        lemma_profile_keeps_every_route(profile.drop_last(), services, detected);
    }
}

/// A target that was found has a route.
pub proof fn resolved_target_has_a_route(
    selector: Option<Seq<char>>,
    config: ConfigModel,
    detected: Seq<ServiceModel>,
)
    ensures
        target_for(selector, config, detected) matches Ok(t) ==> t.routes.len() > 0,
{
    if let Some(name) = wanted(selector, config.default_target) {
        let profile = config::profile_routes(config.routes, name);
        lemma_profile_keeps_every_route(profile, config.services, detected);
        if let Ok(parts) = profile_parts(profile, config.services, detected) {
            order::sorting_keeps_elements(parts.routes, routes::longer_path());
        }
    }
}

} // verus!
