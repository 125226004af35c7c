//! The services that are offered for sharing, the most likely one first.
use crate::detect::classify;
use crate::detect::classify::{
    classify_service, should_include_service, DetectedService, ProjectFingerprints, ServiceModel,
};
use crate::detect::listeners::{Listener, ListenerModel};
use crate::order;
use crate::order::{sort_stable, Ranked};
use crate::text::search;
use crate::text::search::has;
use crate::text::std_calls;
use crate::text::std_calls::to_lower;
use vstd::prelude::*;

verus! {

/// Which of two services is offered first: the higher score, else the one that is not risky, else
/// the lower port.
pub open spec fn offered_before(a: ServiceModel, b: ServiceModel) -> bool {
    a.score > b.score || (a.score == b.score && ((!a.risky && b.risky) || (a.risky == b.risky
        && a.port < b.port)))
}

/// `offered_before`, as an order.
pub open spec fn offer_order() -> spec_fn(ServiceModel, ServiceModel) -> bool {
    |a: ServiceModel, b: ServiceModel| offered_before(a, b)
}

impl Ranked for DetectedService {
    open spec fn ahead(self, other: DetectedService) -> bool {
        offered_before(self@, other@)
    }

    fn is_ahead(&self, other: &DetectedService) -> (r: bool) {
        self.score > other.score || (self.score == other.score && ((!self.risky && other.risky) || (
        self.risky == other.risky && self.port < other.port)))
    }
}

/// A listener, and whether it answered an HTTP request.
#[derive(Debug)]
pub struct ProbedListener {
    pub listener: Listener,
    pub http_ready: bool,
}

impl View for ProbedListener {
    type V = (ListenerModel, bool);

    open spec fn view(&self) -> (ListenerModel, bool) {
        (self.listener@, self.http_ready)
    }
}

/// The views of a list of probed listeners.
pub open spec fn probed_list(found: Seq<ProbedListener>) -> Seq<(ListenerModel, bool)> {
    found.map_values(|l: ProbedListener| l@)
}

/// A listener as a service, with a higher score if its command names the user.
pub open spec fn offered(
    listener: ListenerModel,
    http_ready: bool,
    user: Seq<char>,
    package_json: bool,
) -> ServiceModel {
    let service = classify::classified(
        listener.port,
        listener.command,
        listener.pid,
        http_ready,
        package_json,
    );
    if search::contains(std_calls::lowercase(listener.command), std_calls::lowercase(user)) {
        ServiceModel { score: service.score + 2, ..service }
    } else {
        service
    }
}

/// The listeners that are offered, in the order in which they were found.
pub open spec fn offers(
    found: Seq<(ListenerModel, bool)>,
    user: Seq<char>,
    package_json: bool,
) -> Seq<ServiceModel>
    decreases found.len(),
{
    if found.len() == 0 {
        seq![]
    } else {
        let earlier = offers(found.drop_last(), user, package_json);
        let last = offered(found.last().0, found.last().1, user, package_json);
        if last.http_ready && !last.risky {
            earlier.push(last)
        } else {
            earlier
        }
    }
}

/// Classifies the listeners and sorts those that can be shared.
pub fn rank_services(found: &[ProbedListener], user: &str, fingerprints: &ProjectFingerprints) -> (r:
    Vec<DetectedService>)
    ensures
        classify::service_list(r@) == order::sorted(
            offers(probed_list(found@), user@, fingerprints.package_json),
            offer_order(),
        ),
{
    let ghost all = probed_list(found@);
    let user_lower = to_lower(user);
    let mut services: Vec<DetectedService> = Vec::new();
    let mut i: usize = 0;
    assert(all.take(0) =~= Seq::<(ListenerModel, bool)>::empty());
    assert(classify::service_list(services@) =~= Seq::<ServiceModel>::empty());
    while i < found.len()
        invariant
            i <= found@.len(),
            all == probed_list(found@),
            user_lower@ == std_calls::lowercase(user@),
            classify::service_list(services@) == offers(
                all.take(i as int),
                user@,
                fingerprints.package_json,
            ),
        decreases found@.len() - i,
    {
        let ghost before = services@;
        assert(all.take(i + 1).drop_last() =~= all.take(i as int));
        assert(all.take(i + 1).last() == found@[i as int]@);
        let listener = &found[i].listener;
        let mut service = classify_service(
            listener.port,
            listener.command.as_str(),
            listener.pid.as_str(),
            found[i].http_ready,
            fingerprints,
        );
        if should_include_service(&service) {
            if has(to_lower(listener.command.as_str()).as_str(), user_lower.as_str()) {
                service.score += 2;
            }
            services.push(service);
            assert(classify::service_list(services@) =~= classify::service_list(before).push(
                service@,
            ));
        }
        i += 1;
    }
    assert(all.take(all.len() as int) =~= all);
    proof {
        let f = |s: DetectedService| s@;
        let before = order::rank::<DetectedService>();
        assert forall|a: DetectedService, b: DetectedService| #[trigger]
            before(a, b) == offer_order()(f(a), f(b)) by {}
        order::lemma_sorted_map(services@, f, before, offer_order());
    }
    sort_stable(services)
}

proof fn lemma_offers_are_shareable(
    found: Seq<(ListenerModel, bool)>,
    user: Seq<char>,
    package_json: bool,
)
    ensures
        forall|i: int|
            0 <= i < offers(found, user, package_json).len() ==> {
                let s = #[trigger] offers(found, user, package_json)[i];
                s.http_ready && !s.risky
            },
    decreases found.len(),
{
    if found.len() > 0 {
        lemma_offers_are_shareable(found.drop_last(), user, package_json);
        let earlier = offers(found.drop_last(), user, package_json);
        let now = offers(found, user, package_json);
        assert forall|i: int| 0 <= i < now.len() implies {
            let s = #[trigger] now[i];
            s.http_ready && !s.risky
        } by {
            if i < earlier.len() {
                assert(now[i] == earlier[i]);
            }
        }
    }
}

/// Only services that speak HTTP and are not risky are offered, and no service is offered behind
/// one that it outranks.
pub proof fn offered_services_are_shareable_and_ranked(
    found: Seq<(ListenerModel, bool)>,
    user: Seq<char>,
    package_json: bool,
)
    ensures
        ({
            let listed = order::sorted(
                offers(found, user, package_json),
                offer_order(),
            );
            &&& forall|i: int|
                0 <= i < listed.len() ==> (#[trigger] listed[i]).http_ready && !listed[i].risky
            &&& forall|i: int, j: int|
                0 <= i < j < listed.len() ==> !offered_before(
                    #[trigger] listed[j],
                    #[trigger] listed[i],
                )
        }),
{
    broadcast use vstd::seq_lib::group_to_multiset_ensures;

    let all = offers(found, user, package_json);
    let listed = order::sorted(all, offer_order());
    lemma_offers_are_shareable(found, user, package_json);
    assert(order::is_weak_order(offer_order()));
    order::sorting_orders(all, offer_order());
    order::sorting_keeps_elements(all, offer_order());
    assert forall|i: int| 0 <= i < listed.len() implies (#[trigger] listed[i]).http_ready
        && !listed[i].risky by {
        assert(listed.to_multiset().count(listed[i]) > 0) by {
            assert(listed.contains(listed[i]));
        }
        assert(all.contains(listed[i]));
    }
    assert forall|i: int, j: int| 0 <= i < j < listed.len() implies !offered_before(
        #[trigger] listed[j],
        #[trigger] listed[i],
    ) by {
        assert(!offer_order()(listed[j], listed[i]));
    }
}

} // verus!
