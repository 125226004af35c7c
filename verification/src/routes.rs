//! Routes of a share: which local port answers for which path prefix.
use crate::order;
use crate::order::{sort_stable, Ranked};
use crate::text::chars;
use crate::text::chars::{same, size_of};
use crate::text::class;
use crate::text::class::{split_by, split_once_by, trim_end_by, trim_space, CharClass};
use crate::text::laws;
use crate::text::number;
use crate::text::number::to_decimal;
use crate::text::search;
use crate::text::search::{join, starts_with};
use crate::text::std_calls;
use crate::text::std_calls::parse_u16;
use vstd::prelude::*;
use vstd::utf8;

verus! {

/// A path prefix and the local port that requests under it go to.
#[derive(Debug)]
pub struct ShareRoute {
    pub path: String,
    pub upstream_port: u16,
}

impl View for ShareRoute {
    type V = (Seq<char>, u16);

    open spec fn view(&self) -> (Seq<char>, u16) {
        (self.path@, self.upstream_port)
    }
}

/// The paths and ports of a list of routes.
pub open spec fn route_list(routes: Seq<ShareRoute>) -> Seq<(Seq<char>, u16)> {
    routes.map_values(|r: ShareRoute| r@)
}

impl Clone for ShareRoute {
    fn clone(&self) -> (r: ShareRoute)
        ensures
            r@ == self@,
    {
        ShareRoute { path: self.path.clone(), upstream_port: self.upstream_port }
    }
}

/// Longer paths come before shorter ones, measured in bytes.
pub open spec fn longer_path() -> spec_fn((Seq<char>, u16), (Seq<char>, u16)) -> bool {
    |a: (Seq<char>, u16), b: (Seq<char>, u16)| chars::size(a.0) > chars::size(b.0)
}

impl Ranked for ShareRoute {
    open spec fn ahead(self, other: ShareRoute) -> bool {
        chars::size(self.path@) > chars::size(other.path@)
    }

    fn is_ahead(&self, other: &ShareRoute) -> (r: bool) {
        size_of(self.path.as_str()) > size_of(other.path.as_str())
    }
}

/// Sorts routes so that longer paths come first; paths of one length keep their order.
pub fn sort_routes(routes: Vec<ShareRoute>) -> (r: Vec<ShareRoute>)
    ensures
        route_list(r@) == order::sorted(route_list(routes@), longer_path()),
{
    let ghost before = order::rank::<ShareRoute>();
    let ghost f = |r: ShareRoute| r@;
    proof {
        assert forall|a: ShareRoute, b: ShareRoute| #[trigger]
            before(a, b) == longer_path()(f(a), f(b)) by {}
        order::lemma_sorted_map(routes@, f, before, longer_path());
    }
    sort_stable(routes)
}

/// Whether a route answers for a path: its own path, anything below it, or, for `/`, everything.
pub open spec fn route_matches(path: Seq<char>, route: Seq<char>) -> bool {
    ||| route == "/"@
    ||| path == route
    ||| search::begins(path, class::trim_end(route, CharClass::Char('/')) + "/"@)
}

/// The first route with the longest path among those that answer for `path`.
pub open spec fn best_route(path: Seq<char>, routes: Seq<(Seq<char>, u16)>) -> Option<int>
    decreases routes.len(),
{
    if routes.len() == 0 {
        None
    } else {
        let earlier = best_route(path, routes.drop_last());
        let last = routes.last().0;
        if route_matches(path, last) && (earlier matches Some(i) ==> chars::size(last)
            > chars::size(routes[i].0)) {
            Some(routes.len() - 1)
        } else {
            earlier
        }
    }
}

/// The route that `best_route` gives answers for the path, no route that answers is longer, and
/// none of the same length stands before it. If it gives none, none answers.
pub proof fn best_route_is_longest_match(path: Seq<char>, routes: Seq<(Seq<char>, u16)>)
    ensures
        match best_route(path, routes) {
            Some(i) => {
                &&& 0 <= i < routes.len()
                &&& route_matches(path, routes[i].0)
                &&& forall|j: int|
                    0 <= j < routes.len() && route_matches(path, (#[trigger] routes[j]).0)
                        ==> chars::size(routes[j].0) < chars::size(routes[i].0) || (chars::size(
                        routes[j].0,
                    ) == chars::size(routes[i].0) && i <= j)
            },
            None => forall|j: int|
                0 <= j < routes.len() ==> !route_matches(path, (#[trigger] routes[j]).0),
        },
    decreases routes.len(),
{
    if routes.len() > 0 {
        let front = routes.drop_last();
        best_route_is_longest_match(path, front);
        assert(forall|j: int| 0 <= j < front.len() ==> routes[j] == #[trigger] front[j]);
        assert(forall|j: int|
            0 <= j < routes.len() - 1 ==> #[trigger] routes[j] == front[j]);
        assert(routes.last() == routes[routes.len() - 1]);
    }
}

/// A route for `/` leaves no path without an answer.
pub proof fn root_route_answers_everything(
    path: Seq<char>,
    routes: Seq<(Seq<char>, u16)>,
    at: int,
)
    requires
        0 <= at < routes.len(),
        routes[at].0 == "/"@,
    ensures
        best_route(path, routes) is Some,
{
    best_route_is_longest_match(path, routes);
    assert(route_matches(path, routes[at].0));
}

/// What is filtered out of a list begins with the first element that fits.
proof fn lemma_filter_first<T>(s: Seq<T>, p: spec_fn(T) -> bool, i: int)
    requires
        0 <= i < s.len(),
        p(s[i]),
        forall|j: int| 0 <= j < i ==> !p(#[trigger] s[j]),
    ensures
        s.filter(p).len() > 0,
        s.filter(p)[0] == s[i],
    decreases s.len(),
{
    reveal(Seq::filter);
    let front = s.drop_last();
    if i < s.len() - 1 {
        assert forall|j: int| 0 <= j < i implies !p(#[trigger] front[j]) by {
            assert(front[j] == s[j]);
        }
        lemma_filter_first(front, p, i);
    } else {
        lemma_filter_none(front, p);
    }
}

proof fn lemma_filter_none<T>(s: Seq<T>, p: spec_fn(T) -> bool)
    requires
        forall|j: int| 0 <= j < s.len() ==> !p(#[trigger] s[j]),
    ensures
        s.filter(p).len() == 0,
    decreases s.len(),
{
    reveal(Seq::filter);
    if s.len() > 0 {
        let front = s.drop_last();
        assert forall|j: int| 0 <= j < front.len() implies !p(#[trigger] front[j]) by {
            assert(front[j] == s[j]);
        }
        lemma_filter_none(front, p);
        assert(!p(s[s.len() - 1]));
    }
}

/// Sorting the routes changes nothing about which of them answers for a path.
pub proof fn sorting_keeps_the_best_route(path: Seq<char>, routes: Seq<(Seq<char>, u16)>)
    ensures
        match (
            best_route(path, routes),
            best_route(path, order::sorted(routes, longer_path())),
        ) {
            (Some(i), Some(j)) => routes[i] == order::sorted(routes, longer_path())[j],
            (None, None) => true,
            _ => false,
        },
{
    broadcast use vstd::seq_lib::group_to_multiset_ensures;

    let listed = order::sorted(routes, longer_path());
    order::sorting_keeps_elements(routes, longer_path());
    best_route_is_longest_match(path, routes);
    best_route_is_longest_match(path, listed);
    assert forall|i: int| 0 <= i < routes.len() implies listed.contains(#[trigger] routes[i]) by {
        assert(routes.contains(routes[i]));
        assert(routes.to_multiset().count(routes[i]) > 0);
    }
    assert forall|j: int| 0 <= j < listed.len() implies routes.contains(#[trigger] listed[j]) by {
        assert(listed.contains(listed[j]));
        assert(listed.to_multiset().count(listed[j]) > 0);
    }
    if best_route(path, routes) is Some {
        let i = best_route(path, routes)->0;
        assert(listed.contains(routes[i]));
        let at = choose|at: int| 0 <= at < listed.len() && listed[at] == routes[i];
        assert(route_matches(path, listed[at].0));
        let j = best_route(path, listed)->0;
        assert(routes.contains(listed[j]));
        let back = choose|back: int| 0 <= back < routes.len() && routes[back] == listed[j];
        assert(route_matches(path, routes[back].0));
        let size = chars::size(routes[i].0);
        assert(chars::size(listed[j].0) == size);
        let p = |r: (Seq<char>, u16)| route_matches(path, r.0) && chars::size(r.0) == size;
        assert(p(routes[i]));
        assert(p(listed[j]));
        lemma_filter_first(routes, p, i);
        lemma_filter_first(listed, p, j);
        order::sorting_is_stable(routes, longer_path(), p);
    } else if best_route(path, listed) is Some {
        let j = best_route(path, listed)->0;
        assert(routes.contains(listed[j]));
        let back = choose|back: int| 0 <= back < routes.len() && routes[back] == listed[j];
        assert(route_matches(path, routes[back].0));
    }
}

/// The route that a request for `path` takes: the longest one that answers for it.
pub fn select_route<'a>(path: &str, routes: &'a [ShareRoute]) -> (r: Option<&'a ShareRoute>)
    ensures
        match r {
            Some(route) => best_route(path@, route_list(routes@)) matches Some(i) && 0 <= i
                < routes@.len() && *route == routes@[i],
            None => best_route(path@, route_list(routes@)) is None,
        },
{
    let ghost all = route_list(routes@);
    let mut best: Option<usize> = None;
    let mut i: usize = 0;
    while i < routes.len()
        invariant
            i <= routes@.len(),
            all == route_list(routes@),
            best matches Some(b) ==> b < i,
            best_route(path@, all.take(i as int)) == match best {
                Some(b) => Some(b as int),
                None => None,
            },
        decreases routes@.len() - i,
    {
        let route = &routes[i];
        assert(all.take(i + 1).drop_last() =~= all.take(i as int));
        assert(all.take(i + 1).last() == route@);
        let matches = same(route.path.as_str(), "/") || same(path, route.path.as_str()) || {
            let mut below = trim_end_by(route.path.as_str(), CharClass::Char('/'));
            below.append("/");
            starts_with(path, below.as_str())
        };
        if matches {
            let longer = match best {
                Some(b) => {
                    assert(all.take(i + 1)[b as int] == routes@[b as int]@);
                    size_of(route.path.as_str()) > size_of(routes[b].path.as_str())
                },
                None => true,
            };
            if longer {
                best = Some(i);
            }
        }
        i += 1;
    }
    assert(all.take(all.len() as int) =~= all);
    match best {
        Some(b) => Some(&routes[b]),
        None => None,
    }
}

/// What one entry of a route specification says: a path, an equals sign and a port.
pub open spec fn route_entry(entry: Seq<char>) -> Result<(Seq<char>, u16), Seq<char>> {
    match class::split_once(entry, CharClass::Char('=')) {
        None => Err("invalid route '"@ + entry + "'"@),
        Some((path, port)) => match number::decimal_up_to(port, u16::MAX as nat) {
            Some(v) => Ok((path, v as u16)),
            None => Err(
                "invalid route port '"@ + port + "': "@ + std_calls::parse_u16_error(port),
            ),
        },
    }
}

/// What the entries say, one after the other, up to the first that is wrong. Blank entries say
/// nothing.
pub open spec fn route_entries(entries: Seq<Seq<char>>) -> Result<
    Seq<(Seq<char>, u16)>,
    Seq<char>,
>
    decreases entries.len(),
{
    if entries.len() == 0 {
        Ok(seq![])
    } else if class::trimmed(entries[0]).len() == 0 {
        route_entries(entries.skip(1))
    } else {
        match route_entry(entries[0]) {
            Err(e) => Err(e),
            Ok(route) => match route_entries(entries.skip(1)) {
                Err(e) => Err(e),
                Ok(rest) => Ok(seq![route] + rest),
            },
        }
    }
}

/// The routes that a specification names, longer paths first.
pub open spec fn routes_named(spec: Seq<char>) -> Result<Seq<(Seq<char>, u16)>, Seq<char>> {
    match route_entries(class::split(spec, CharClass::Char(','))) {
        Err(e) => Err(e),
        Ok(routes) => Ok(order::sorted(routes, longer_path())),
    }
}

/// Reads one entry of a route specification.
fn parse_route(entry: &str) -> (r: Result<ShareRoute, String>)
    ensures
        match r {
            Ok(route) => route_entry(entry@) == Ok::<(Seq<char>, u16), Seq<char>>(route@),
            Err(e) => route_entry(entry@) == Err::<(Seq<char>, u16), Seq<char>>(e@),
        },
{
    match split_once_by(entry, CharClass::Char('=')) {
        None => Err("invalid route '".to_owned().concat(entry).concat("'")),
        Some((path, port)) => match parse_u16(port.as_str()) {
            Ok(upstream_port) => Ok(ShareRoute { path, upstream_port }),
            Err(e) => Err(
                "invalid route port '".to_owned().concat(port.as_str()).concat("': ").concat(
                    e.as_str(),
                ),
            ),
        },
    }
}

/// Reads a route specification: entries `path=port` with commas between them.
pub fn parse_routes(spec: &str) -> (r: Result<Vec<ShareRoute>, String>)
    ensures
        match r {
            Ok(routes) => routes_named(spec@) == Ok::<Seq<(Seq<char>, u16)>, Seq<char>>(
                route_list(routes@),
            ),
            Err(e) => routes_named(spec@) == Err::<Seq<(Seq<char>, u16)>, Seq<char>>(e@),
        },
{
    let entries = split_by(spec, CharClass::Char(','));
    let ghost all = chars::texts(entries@);
    let mut routes: Vec<ShareRoute> = Vec::new();
    let mut i: usize = 0;
    assert(all.skip(0) =~= all);
    assert(route_list(routes@) =~= Seq::<(Seq<char>, u16)>::empty());
    while i < entries.len()
        invariant
            i <= entries@.len(),
            all == chars::texts(entries@),
            all == class::split(spec@, CharClass::Char(',')),
            match route_entries(all.skip(i as int)) {
                Ok(rest) => route_entries(all) == Ok::<Seq<(Seq<char>, u16)>, Seq<char>>(
                    route_list(routes@) + rest,
                ),
                Err(e) => route_entries(all) == Err::<Seq<(Seq<char>, u16)>, Seq<char>>(e),
            },
        decreases entries@.len() - i,
    {
        let entry = entries[i].as_str();
        let ghost before = routes@;
        assert(all.skip(i as int).skip(1) =~= all.skip(i + 1));
        assert(all.skip(i as int)[0] == entry@);
        if !trim_space(entry).as_str().is_empty() {
            match parse_route(entry) {
                Ok(route) => {
                    routes.push(route);
                    assert(route_list(routes@) =~= route_list(before).push(route@));
                    assert(route_entries(all.skip(i + 1)) matches Ok(rest) ==> route_list(before)
                        + (seq![route@] + rest) =~= route_list(routes@) + rest);
                },
                Err(e) => {
                    return Err(e);
                },
            }
        }
        i += 1;
    }
    assert(route_list(routes@) + Seq::<(Seq<char>, u16)>::empty() =~= route_list(routes@));
    Ok(sort_routes(routes))
}

/// A route as an entry of a route specification.
pub open spec fn entry_text(route: (Seq<char>, u16)) -> Seq<char> {
    route.0 + "="@ + number::decimal(route.1 as nat)
}

/// Routes as a route specification.
pub open spec fn routes_text(routes: Seq<(Seq<char>, u16)>) -> Seq<char> {
    search::joined(routes.map_values(|r: (Seq<char>, u16)| entry_text(r)), ","@)
}

/// Writes routes as a route specification.
pub fn format_routes(routes: &[ShareRoute]) -> (r: String)
    ensures
        r@ == routes_text(route_list(routes@)),
{
    let mut entries: Vec<String> = Vec::new();
    let mut i: usize = 0;
    while i < routes.len()
        invariant
            i <= routes@.len(),
            entries@.len() == i,
            forall|j: int| 0 <= j < i ==> (#[trigger] entries@[j])@ == entry_text(routes@[j]@),
        decreases routes@.len() - i,
    {
        let entry = routes[i].path.clone().concat("=").concat(
            to_decimal(routes[i].upstream_port as u64).as_str(),
        );
        entries.push(entry);
        i += 1;
    }
    assert(chars::texts(entries@) =~= route_list(routes@).map_values(
        |r: (Seq<char>, u16)| entry_text(r),
    ));
    join(&entries, ",")
}

/// An entry that was written reads back as its route.
proof fn lemma_entry_reads_back(route: (Seq<char>, u16))
    requires
        laws::lacks(route.0, '='),
        laws::lacks(route.0, ','),
    ensures
        route_entry(entry_text(route)) == Ok::<(Seq<char>, u16), Seq<char>>(route),
        laws::lacks(entry_text(route), ','),
        class::trimmed(entry_text(route)).len() > 0,
{
    reveal_strlit("=");
    assert("="@ =~= seq!['=']);
    let digits = number::decimal(route.1 as nat);
    number::decimal_reads_back(route.1 as nat);
    laws::split_once_parts(route.0, '=', digits);
    let s = entry_text(route);
    assert forall|i: int| 0 <= i < s.len() implies #[trigger] s[i] != ',' by {
        if i > route.0.len() {
            assert(s[i] == digits[i - route.0.len() - 1]);
        } else if i < route.0.len() {
            assert(s[i] == route.0[i]);
        }
    }
    assert(s[route.0.len() as int] == '=');
    laws::lemma_trim_keeps(s, CharClass::Space, route.0.len() as int);
}

/// A route specification that was written names its routes, longer paths first. A path with a
/// comma or an equals sign in it cannot be written.
pub proof fn route_specification_reads_back(routes: Seq<(Seq<char>, u16)>)
    requires
        forall|i: int|
            0 <= i < routes.len() ==> laws::lacks((#[trigger] routes[i]).0, '=') && laws::lacks(
                routes[i].0,
                ',',
            ),
    ensures
        routes_named(routes_text(routes)) == Ok::<Seq<(Seq<char>, u16)>, Seq<char>>(
            order::sorted(routes, longer_path()),
        ),
{
    reveal_strlit(",");
    assert(","@ =~= seq![',']);
    let entries = routes.map_values(|r: (Seq<char>, u16)| entry_text(r));
    if routes.len() == 0 {
        let s = routes_text(routes);
        assert(s =~= seq![]);
        laws::split_whole(s, ',');
        let all = class::split(s, CharClass::Char(','));
        assert(all.skip(1) =~= Seq::<Seq<char>>::empty());
        assert(class::trimmed(s).len() == 0);
        reveal_with_fuel(route_entries, 3);
        assert(routes =~= Seq::<(Seq<char>, u16)>::empty());
    } else {
        assert forall|i: int| 0 <= i < entries.len() implies laws::lacks(
            #[trigger] entries[i],
            ',',
        ) by {
            lemma_entry_reads_back(routes[i]);
        }
        laws::split_undoes_join(entries, ',');
        lemma_entries_read_back(routes);
    }
}

proof fn lemma_entries_read_back(routes: Seq<(Seq<char>, u16)>)
    requires
        forall|i: int|
            0 <= i < routes.len() ==> laws::lacks((#[trigger] routes[i]).0, '=') && laws::lacks(
                routes[i].0,
                ',',
            ),
    ensures
        route_entries(routes.map_values(|r: (Seq<char>, u16)| entry_text(r))) == Ok::<
            Seq<(Seq<char>, u16)>,
            Seq<char>,
        >(routes),
    decreases routes.len(),
{
    let entries = routes.map_values(|r: (Seq<char>, u16)| entry_text(r));
    if routes.len() > 0 {
        lemma_entry_reads_back(routes[0]);
        lemma_entries_read_back(routes.skip(1));
        assert(entries.skip(1) =~= routes.skip(1).map_values(
            |r: (Seq<char>, u16)| entry_text(r),
        ));
        assert(seq![routes[0]] + routes.skip(1) =~= routes);
    } else {
        assert(routes =~= seq![]);
    }
}

/// Whether a path lies below a route: it goes on with a slash right behind the route's characters,
/// the slashes at the route's end left out of account.
pub open spec fn lies_below(path: Seq<char>, route: Seq<char>) -> bool {
    exists|k: int|
        {
            &&& 0 <= k <= route.len() && k < path.len()
            &&& #[trigger] path.take(k) == route.take(k)
            &&& path[k] == '/'
            &&& k > 0 ==> route[k - 1] != '/'
            &&& forall|j: int| k <= j < route.len() ==> #[trigger] route[j] == '/'
        }
}

/// Whether a route answers for a path: it is a single slash, it is the path, or the path lies below
/// it.
pub open spec fn answers_for(route: Seq<char>, path: Seq<char>) -> bool {
    route == seq!['/'] || route == path || lies_below(path, route)
}

/// Trimming slashes off the end leaves the longest front that does not end in one.
proof fn lemma_slashes_trimmed(route: Seq<char>)
    ensures
        ({
            let t = class::trim_end(route, CharClass::Char('/'));
            &&& t.len() <= route.len()
            &&& t == route.take(t.len() as int)
            &&& t.len() > 0 ==> t[t.len() - 1] != '/'
            &&& forall|j: int| t.len() <= j < route.len() ==> #[trigger] route[j] == '/'
        }),
    decreases route.len(),
{
    let t = class::trim_end(route, CharClass::Char('/'));
    if route.len() > 0 && route.last() == '/' {
        let front = route.drop_last();
        lemma_slashes_trimmed(front);
        assert(front.take(t.len() as int) =~= route.take(t.len() as int));
        assert forall|j: int| t.len() <= j < route.len() implies #[trigger] route[j] == '/' by {
            if j < front.len() {
                assert(front[j] == route[j]);
            }
        }
    } else {
        assert(route.take(route.len() as int) =~= route);
    }
}

/// A route answers for its own path and for what lies below it, and only the single slash answers
/// for anything else.
pub proof fn routes_answer_for_what_lies_below(path: Seq<char>, route: Seq<char>)
    ensures
        route_matches(path, route) <==> answers_for(route, path),
{
    reveal_strlit("/");
    assert("/"@ =~= seq!['/']);
    lemma_slashes_trimmed(route);
    let t = class::trim_end(route, CharClass::Char('/'));
    let n = t.len() as int;
    let below = t + "/"@;
    if search::begins(path, below) {
        assert(path.take(n) =~= path.take(n + 1).take(n));
        assert(below.take(n) =~= t);
        assert(path.take(n + 1)[n] == '/');
        assert(path.take(n) == route.take(n));
        assert(lies_below(path, route));
    }
    if lies_below(path, route) {
        let k = choose|k: int|
            {
                &&& 0 <= k <= route.len() && k < path.len()
                &&& #[trigger] path.take(k) == route.take(k)
                &&& path[k] == '/'
                &&& k > 0 ==> route[k - 1] != '/'
                &&& forall|j: int| k <= j < route.len() ==> #[trigger] route[j] == '/'
            };
        if k < n {
            assert(route[n - 1] == '/');
            assert(t[n - 1] == route[n - 1]);
        }
        if n < k {
            assert(route[k - 1] == '/');
        }
        assert(path.take(n + 1) =~= below);
    }
}

/// A request goes to the route with the longest path, in bytes, among those that answer for its
/// path, and to the first of those that are equally long. It goes nowhere exactly if none answers.
pub proof fn requests_take_the_longest_route(path: Seq<char>, routes: Seq<(Seq<char>, u16)>)
    ensures
        match best_route(path, routes) {
            Some(i) => {
                &&& 0 <= i < routes.len()
                &&& answers_for(routes[i].0, path)
                &&& forall|j: int|
                    0 <= j < routes.len() && answers_for((#[trigger] routes[j]).0, path)
                        ==> utf8::encode_utf8(routes[j].0).len() <= utf8::encode_utf8(
                        routes[i].0,
                    ).len()
                &&& forall|j: int|
                    0 <= j < i && answers_for((#[trigger] routes[j]).0, path) ==> utf8::encode_utf8(
                        routes[j].0,
                    ).len() < utf8::encode_utf8(routes[i].0).len()
            },
            None => forall|j: int|
                0 <= j < routes.len() ==> !answers_for((#[trigger] routes[j]).0, path),
        },
{
    best_route_is_longest_match(path, routes);
    assert forall|r: Seq<char>| #[trigger] answers_for(r, path) == route_matches(path, r) by {
        routes_answer_for_what_lies_below(path, r);
    }
}

/// A path that is no route's own and lies below none goes where the single slash goes.
pub proof fn other_paths_go_to_the_root(
    path: Seq<char>,
    routes: Seq<(Seq<char>, u16)>,
    root: int,
)
    requires
        0 <= root < routes.len(),
        routes[root].0 == seq!['/'],
        forall|j: int|
            0 <= j < routes.len() && (#[trigger] routes[j]).0 != seq!['/'] ==> routes[j].0 != path
                && !lies_below(path, routes[j].0),
        forall|j: int| 0 <= j < root ==> (#[trigger] routes[j]).0 != seq!['/'],
    ensures
        best_route(path, routes) == Some(root),
{
    requests_take_the_longest_route(path, routes);
    assert(answers_for(routes[root].0, path));
}

/// A path below a route goes to its port, if no other route answers for it but the single slash.
pub proof fn paths_below_a_route_go_to_it(
    path: Seq<char>,
    routes: Seq<(Seq<char>, u16)>,
    at: int,
)
    requires
        0 <= at < routes.len(),
        routes[at].0 == path || lies_below(path, routes[at].0),
        utf8::encode_utf8(routes[at].0).len() > utf8::encode_utf8(seq!['/']).len(),
        forall|j: int|
            0 <= j < routes.len() && j != at && (#[trigger] routes[j]).0 != seq!['/']
                ==> routes[j].0 != path && !lies_below(path, routes[j].0),
    ensures
        best_route(path, routes) == Some(at),
{
    requests_take_the_longest_route(path, routes);
    assert(answers_for(routes[at].0, path));
}

/// Sorted routes are the same routes, with longer paths, in bytes, in front.
pub proof fn routes_are_sorted_by_length(routes: Seq<(Seq<char>, u16)>)
    ensures
        order::sorted(routes, longer_path()).to_multiset() == routes.to_multiset(),
        forall|i: int, j: int|
            0 <= i < j < routes.len() ==> utf8::encode_utf8(
                (#[trigger] order::sorted(routes, longer_path())[i]).0,
            ).len() >= utf8::encode_utf8((#[trigger] order::sorted(routes, longer_path())[j]).0).len(),
{
    order::sorting_keeps_elements(routes, longer_path());
    order::sorting_orders(routes, longer_path());
    let s = order::sorted(routes, longer_path());
    assert forall|i: int, j: int| 0 <= i < j < routes.len() implies utf8::encode_utf8(
        (#[trigger] s[i]).0,
    ).len() >= utf8::encode_utf8((#[trigger] s[j]).0).len() by {
        assert(!longer_path()(s[j], s[i]));
    }
}

/// An entry of a route specification is a path, an equals sign and a port in decimal; an entry
/// without an equals sign, or with something else than a port behind it, is refused.
pub proof fn route_entries_are_paths_and_ports(path: Seq<char>, port: u16, other: Seq<char>)
    requires
        laws::lacks(path, '='),
    ensures
        route_entry(path + seq!['='] + number::decimal(port as nat)) == Ok::<
            (Seq<char>, u16),
            Seq<char>,
        >((path, port)),
        route_entry(path) == Err::<(Seq<char>, u16), Seq<char>>("invalid route '"@ + path + "'"@),
        !(number::decimal_value(other) matches Some(n) && n <= 65535) ==> route_entry(
            path + seq!['='] + other,
        ) == Err::<(Seq<char>, u16), Seq<char>>(
            "invalid route port '"@ + other + "': "@ + std_calls::parse_u16_error(other),
        ),
{
    number::decimal_reads_back(port as nat);
    laws::split_once_parts(path, '=', number::decimal(port as nat));
    laws::split_once_parts(path, '=', other);
    laws::split_whole(path, '=');
}

} // verus!
