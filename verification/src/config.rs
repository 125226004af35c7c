//! The project's configuration: its services, its route profiles and how shares are protected.
use crate::text::chars::same;
use vstd::prelude::*;

verus! {

/// A service of the project.
#[derive(Debug)]
pub struct ServiceConfig {
    pub name: String,
    pub port: u16,
    pub role: String,
    pub framework: String,
    pub healthcheck_path: String,
}

/// A service of the project.
pub struct ServiceConfigModel {
    pub name: Seq<char>,
    pub port: u16,
    pub role: Seq<char>,
    pub framework: Seq<char>,
    pub healthcheck_path: Seq<char>,
}

impl View for ServiceConfig {
    type V = ServiceConfigModel;

    open spec fn view(&self) -> ServiceConfigModel {
        ServiceConfigModel {
            name: self.name@,
            port: self.port,
            role: self.role@,
            framework: self.framework@,
            healthcheck_path: self.healthcheck_path@,
        }
    }
}

/// A path of a route profile and the service that answers for it.
#[derive(Debug)]
pub struct RouteConfig {
    pub profile: String,
    pub path: String,
    pub service: String,
}

/// A path of a route profile and the service that answers for it.
pub struct RouteConfigModel {
    pub profile: Seq<char>,
    pub path: Seq<char>,
    pub service: Seq<char>,
}

impl View for RouteConfig {
    type V = RouteConfigModel;

    open spec fn view(&self) -> RouteConfigModel {
        RouteConfigModel { profile: self.profile@, path: self.path@, service: self.service@ }
    }
}

/// How a share is protected.
#[derive(Debug)]
pub struct Protection {
    pub expires_in: String,
    pub access_mode: String,
    pub share_token: String,
    pub warn_on_sensitive_ports: bool,
}

/// How a share is protected.
pub struct ProtectionModel {
    pub expires_in: Seq<char>,
    pub access_mode: Seq<char>,
    pub share_token: Seq<char>,
    pub warn_on_sensitive_ports: bool,
}

impl View for Protection {
    type V = ProtectionModel;

    open spec fn view(&self) -> ProtectionModel {
        ProtectionModel {
            expires_in: self.expires_in@,
            access_mode: self.access_mode@,
            share_token: self.share_token@,
            warn_on_sensitive_ports: self.warn_on_sensitive_ports,
        }
    }
}

impl Clone for Protection {
    fn clone(&self) -> (r: Protection)
        ensures
            r@ == self@,
    {
        Protection {
            expires_in: self.expires_in.clone(),
            access_mode: self.access_mode.clone(),
            share_token: self.share_token.clone(),
            warn_on_sensitive_ports: self.warn_on_sensitive_ports,
        }
    }
}

/// What is shared where the command line names nothing.
#[derive(Debug)]
pub struct DefaultShare {
    pub target: String,
}

/// The project's configuration.
#[derive(Debug)]
pub struct Config {
    pub default_share: DefaultShare,
    pub services: Vec<ServiceConfig>,
    pub routes: Vec<RouteConfig>,
    pub protection: Protection,
}

/// The project's configuration.
pub struct ConfigModel {
    pub default_target: Seq<char>,
    pub services: Seq<ServiceConfigModel>,
    pub routes: Seq<RouteConfigModel>,
    pub protection: ProtectionModel,
}

impl View for Config {
    type V = ConfigModel;

    open spec fn view(&self) -> ConfigModel {
        ConfigModel {
            default_target: self.default_share.target@,
            services: self.services@.map_values(|s: ServiceConfig| s@),
            routes: self.routes@.map_values(|r: RouteConfig| r@),
            protection: self.protection@,
        }
    }
}

/// The position of the first service called `name`.
pub open spec fn service_named(services: Seq<ServiceConfigModel>, name: Seq<char>) -> Option<int>
    decreases services.len(),
{
    if services.len() == 0 {
        None
    } else if services[0].name == name {
        Some(0)
    } else {
        match service_named(services.skip(1), name) {
            Some(i) => Some(i + 1),
            None => None,
        }
    }
}

/// The position of the first service on `port`.
pub open spec fn service_on(services: Seq<ServiceConfigModel>, port: u16) -> Option<int>
    decreases services.len(),
{
    if services.len() == 0 {
        None
    } else if services[0].port == port {
        Some(0)
    } else {
        match service_on(services.skip(1), port) {
            Some(i) => Some(i + 1),
            None => None,
        }
    }
}

/// The routes of a profile, in order.
pub open spec fn profile_routes(routes: Seq<RouteConfigModel>, profile: Seq<char>) -> Seq<
    RouteConfigModel,
>
    decreases routes.len(),
{
    if routes.len() == 0 {
        seq![]
    } else {
        let earlier = profile_routes(routes.drop_last(), profile);
        if routes.last().profile == profile {
            earlier.push(routes.last())
        } else {
            earlier
        }
    }
}

/// The views of a list of borrowed routes.
pub open spec fn route_views(routes: Seq<&RouteConfig>) -> Seq<RouteConfigModel> {
    routes.map_values(|r: &RouteConfig| r@)
}

impl Config {
    /// The first service called `name`.
    pub fn service_by_name(&self, name: &str) -> (r: Option<&ServiceConfig>)
        ensures
            match r {
                Some(s) => service_named(self@.services, name@) matches Some(i) && 0 <= i
                    < self@.services.len() && s@ == self@.services[i],
                None => service_named(self@.services, name@) is None,
            },
    {
        let ghost all = self@.services;
        let mut i: usize = 0;
        assert(all.skip(0) =~= all);
        while i < self.services.len()
            invariant
                i <= self.services@.len(),
                all == self@.services,
                service_named(all, name@) == match service_named(all.skip(i as int), name@) {
                    Some(j) => Some(i + j),
                    None => None,
                },
            decreases self.services@.len() - i,
        {
            assert(all.skip(i as int).skip(1) =~= all.skip(i + 1));
            assert(all.skip(i as int)[0] == self.services@[i as int]@);
            if same(self.services[i].name.as_str(), name) {
                return Some(&self.services[i]);
            }
            i += 1;
        }
        None
    }

    /// The first service on `port`.
    pub fn service_by_port(&self, port: u16) -> (r: Option<&ServiceConfig>)
        ensures
            match r {
                Some(s) => service_on(self@.services, port) matches Some(i) && 0 <= i
                    < self@.services.len() && s@ == self@.services[i],
                None => service_on(self@.services, port) is None,
            },
    {
        let ghost all = self@.services;
        let mut i: usize = 0;
        assert(all.skip(0) =~= all);
        while i < self.services.len()
            invariant
                i <= self.services@.len(),
                all == self@.services,
                service_on(all, port) == match service_on(all.skip(i as int), port) {
                    Some(j) => Some(i + j),
                    None => None,
                },
            decreases self.services@.len() - i,
        {
            assert(all.skip(i as int).skip(1) =~= all.skip(i + 1));
            assert(all.skip(i as int)[0] == self.services@[i as int]@);
            if self.services[i].port == port {
                return Some(&self.services[i]);
            }
            i += 1;
        }
        None
    }

    /// The routes of a profile, in order.
    pub fn route_profile(&self, profile: &str) -> (r: Vec<&RouteConfig>)
        ensures
            route_views(r@) == profile_routes(self@.routes, profile@),
    {
        let ghost all = self@.routes;
        let mut out: Vec<&RouteConfig> = Vec::new();
        let mut i: usize = 0;
        assert(all.take(0) =~= Seq::<RouteConfigModel>::empty());
        assert(route_views(out@) =~= Seq::<RouteConfigModel>::empty());
        while i < self.routes.len()
            invariant
                i <= self.routes@.len(),
                all == self@.routes,
                route_views(out@) == profile_routes(all.take(i as int), profile@),
            decreases self.routes@.len() - i,
        {
            let ghost before = out@;
            assert(all.take(i + 1).drop_last() =~= all.take(i as int));
            assert(all.take(i + 1).last() == self.routes@[i as int]@);
            if same(self.routes[i].profile.as_str(), profile) {
                out.push(&self.routes[i]);
                assert(route_views(out@) =~= route_views(before).push(self.routes@[i as int]@));
            }
            i += 1;
        }
        assert(all.take(all.len() as int) =~= all);
        out
    }
}

} // verus!
