//! Homeostat: a house described as a repo of manifests, checked, planned and
//! kept running.

use vstd::prelude::*;

pub mod acceptance;
pub mod addresses;
pub mod answers;
pub mod bounds;
pub mod bus;
pub mod cli;
pub mod codes;
pub mod composition;
pub mod config;
pub mod content;
pub mod converge;
pub mod document;
pub mod error;
pub mod exchanges;
pub mod expand;
pub mod floats;
pub mod gitinfo;
pub mod grants;
pub mod graph;
pub mod json;
pub mod keyspace;
pub mod laws;
pub mod loading;
pub mod manifest;
pub mod mcp;
pub mod names;
pub mod order;
pub mod pending;
pub mod plan;
pub mod policies;
pub mod reach;
pub mod readings;
pub mod repo;
pub mod restarts;
pub mod rewrites;
pub mod roster;
pub mod rules;
pub mod scan;
pub mod schema;
pub mod specimens;
pub mod supervisor;
pub mod surroundings;
pub mod text;
pub mod tomlvalue;
pub mod validate;
pub mod wiring;
pub mod world;

pub use error::ValidationError;

verus! {

broadcast use crate::text::group_views;

/// A checked house: what its keys expand to, the grant table, the feeds, and
/// everything that is wrong or worth a warning.
pub struct CheckResult {
    pub house: repo::House,
    pub expanded: Vec<expand::ExpandedKey>,
    pub grants: Vec<grants::Grant>,
    pub feeds: Vec<grants::Feed>,
    pub warnings: Vec<String>,
    pub errors: Vec<ValidationError>,
}

/// The expansion of a house holds only keys that their units declare.
pub proof fn lemma_house_keys_resolve(h: repo::House)
    ensures
        grants::keys_resolve(h, expand::house_keys(h, h.units@.len())),
{
    let n = h.units@.len();
    let keys = expand::house_keys(h, n);
    let f = |i: int| expand::unit_keys(h, h.units@[i]);
    assert forall|k: int|
        0 <= k < keys.len() && (#[trigger] keys[k]).direction
            == expand::Direction::Publishes implies repo::unit_named(h.units@, keys[k].unit) is Some
        && grants::declarer(h.units@, keys[k].unit, keys[k].entry) is Some by {
        let i = text::lemma_in_each(n, f, k);
        let u = h.units@[i];
        let bus = u.manifest.bus->Some_0;
        let own = expand::unit_keys(h, u);
        let m = own.index_of(keys[k]);
        let pubs = expand::publish_keys(h, u, bus.publishes@.len());
        let subs = expand::subscribe_keys(h, u, bus.subscribes@.len());
        if m < pubs.len() {
            assert(own[m] == pubs[m]);
            let g = |j: int|
                expand::entry_keys(
                    h,
                    u,
                    bus.publishes@[j].0@,
                    bus.publishes@[j].1.key@,
                    expand::Direction::Publishes,
                );
            let j = text::lemma_in_each(bus.publishes@.len(), g, m);
            assert(g(j).contains(pubs[m]));
            lemma_listed(bus.publishes@, j);
            lemma_declared(h.units@, i, keys[k].entry);
        } else {
            assert(own[m] == subs[m - pubs.len()]);
            let g = |j: int|
                expand::entry_keys(
                    h,
                    u,
                    bus.subscribes@[j].0@,
                    bus.subscribes@[j].1@,
                    expand::Direction::Subscribes,
                );
            let j = text::lemma_in_each(bus.subscribes@.len(), g, m - pubs.len());
            assert(g(j).contains(subs[m - pubs.len()]));
        }
    }
}

proof fn lemma_listed<T>(s: Seq<(String, T)>, i: int)
    requires
        0 <= i < s.len(),
    ensures
        names::lookup(s, s[i].0@) is Some,
    decreases s.len(),
{
    if i > 0 {
        lemma_listed(s.drop_first(), i - 1);
    }
}

proof fn lemma_declared(units: Seq<repo::LoadedUnit>, i: int, entry: Seq<char>)
    requires
        0 <= i < units.len(),
        grants::publishes_under(units[i], entry),
    ensures
        repo::unit_named(units, units[i].manifest.unit.name@) is Some,
        grants::declarer(units, units[i].manifest.unit.name@, entry) is Some,
    decreases units.len(),
{
    if i > 0 {
        lemma_declared(units.drop_first(), i - 1, entry);
    }
}

/// Everything that is wrong with a loaded house.
pub open spec fn check_errors(h: repo::House) -> Seq<error::ErrorView> {
    let keys = expand::house_keys(h, h.units@.len());
    validate::house_errors(h) + expand::house_key_errors(h, h.units@.len())
        + grants::resolve_errors(h, keys) + grants::house_feed_errors(h, keys, h.entities@.len())
}

proof fn lemma_regroup(
    first: Seq<error::ErrorView>,
    a: Seq<error::ErrorView>,
    b: Seq<error::ErrorView>,
    c: Seq<error::ErrorView>,
    d: Seq<error::ErrorView>,
)
    ensures
        first + a + b + c + d == first + (a + b + c + d),
{
    assert(first + a + b + c + d =~= first + (a + b + c + d));
}

/// Runs the full plan-time pipeline on a loaded house: validate, expand,
/// resolve grants and feeds. Errors accumulate across all stages, after those
/// of loading.
pub fn check(house: repo::House, errors: Vec<ValidationError>) -> (r: CheckResult)
    ensures
        r.house == house,
        text::views(r.expanded@) == expand::house_keys(house, house.units@.len()),
        text::views(r.grants@) == grants::grant_table(house, text::views(r.expanded@)),
        text::views(r.feeds@) == grants::house_feeds(
            house,
            text::views(r.expanded@),
            house.entities@.len(),
        ),
        text::views(r.warnings@) == grants::grant_warnings(
            house,
            text::views(r.expanded@),
            r.expanded@.len(),
        ),
        text::views(r.errors@) == text::views(errors@) + check_errors(house),
{
    let mut errors = errors;
    let ghost loading = text::views(errors@);
    let mut found = validate::validate(&house);
    let ghost a = text::views(found@);
    errors.append(&mut found);
    let (expanded, mut key_errors) = expand::expand(&house);
    let ghost b = text::views(key_errors@);
    errors.append(&mut key_errors);
    proof {
        lemma_house_keys_resolve(house);
    }
    let (table, warnings, mut grant_errors) = grants::resolve(&house, &expanded);
    let ghost c = text::views(grant_errors@);
    errors.append(&mut grant_errors);
    let (feeds, mut feed_errors) = grants::resolve_feeds(&house, &expanded);
    let ghost d = text::views(feed_errors@);
    errors.append(&mut feed_errors);
    proof {
        lemma_regroup(loading, a, b, c, d);
    }
    CheckResult { house, expanded, grants: table, feeds, warnings, errors }
}

} // verus!
