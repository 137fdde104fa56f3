//! Answering the bus from the core's last-value caches: live parameters,
//! health and the clock.

use crate::addresses;
use crate::bus;
use crate::bus::config_key;
use crate::bus::Health;
use crate::bus::HealthStatus;
use crate::config;
use crate::config::ConfigStore;
use crate::config::StoredParam;
use crate::json;
use crate::json::Json;
use crate::json::JsonView;
use crate::names;
use crate::names::NameMap;
use crate::scan;
use crate::supervisor::unit;
use crate::text;
use crate::text::str_eq;
use crate::validate;
use vstd::prelude::*;

verus! {

broadcast use crate::text::group_views;

/// Whether zenoh finds that two key expressions have a key in common.
pub uninterp spec fn keys_intersect(a: Seq<char>, b: Seq<char>) -> bool;

/// A segment that zenoh takes literally.
pub open spec fn literal_segment(s: Seq<char>) -> bool {
    s.len() > 0 && !s.contains('*') && !s.contains('$') && !s.contains('#') && !s.contains('?')
}

/// A concrete key: literal segments only.
pub open spec fn concrete(key: Seq<char>) -> bool {
    let pieces = text::split_at_each(key, '/');
    forall|i: int| 0 <= i < pieces.len() ==> literal_segment(#[trigger] pieces[i])
}

/// Calls `zenoh::key_expr::keyexpr::new` on both texts and, where both are
/// key expressions, `keyexpr::intersects`. The result is a function of the
/// two texts alone; a text that is no key expression meets none. A concrete
/// key is a key expression, and two concrete keys meet exactly where they are
/// the same.
#[verifier::external_body]
fn intersects(a: &str, b: &str) -> (r: bool)
    ensures
        r == keys_intersect(a@, b@),
        concrete(a@) && concrete(b@) ==> r == (a@ == b@),
{
    match (zenoh::key_expr::keyexpr::new(a), zenoh::key_expr::keyexpr::new(b)) {
        (Ok(x), Ok(y)) => x.intersects(y),
        _ => false,
    }
}

/// The health of a unit that the supervisor has not launched yet.
pub fn initial_health() -> (r: Health)
    ensures
        r == unit::down(HealthStatus::Starting, 0, None),
{
    Health {
        status: HealthStatus::Starting,
        pid: None,
        restarts: 0,
        backoff_ms: None,
        last_exit_code: None,
    }
}

/// The places of the keys among the first `n` that a selector covers.
pub open spec fn covered_places(selector: Seq<char>, keys: Seq<Seq<char>>, n: nat) -> Seq<usize> {
    text::each(n, |i: int| text::only_if(keys_intersect(selector, keys[i]), i as usize))
}

/// The places of the keys that a query's selector covers: which of the
/// cached values it is answered with.
pub fn covered(selector: &str, keys: &Vec<String>) -> (r: Vec<usize>)
    ensures
        r@ == covered_places(selector@, text::views(keys@), keys@.len()),
{
    let mut out: Vec<usize> = Vec::new();
    for i in 0..keys.len()
        invariant
            out@ == covered_places(selector@, text::views(keys@), i as nat),
    {
        assert(text::views(keys@)[i as int] == keys@[i as int]@);
        if intersects(selector, keys[i].as_str()) {
            out.push(i);
        }
    }
    out
}

/// The answer to a query on the parameters.
#[derive(Debug)]
pub enum ConfigReply {
    /// The current values: each key with its value as JSON.
    Values(Vec<(String, String)>),
    /// The write was taken: the key and the stored value as JSON, to be put
    /// on the bus and replied.
    Stored { key: String, text: String },
    /// The write was refused, with this error as JSON.
    Refused(String),
}

/// What a read of the first `n` parameters is answered.
pub open spec fn covered_values(
    entries: Seq<((String, String), StoredParam)>,
    selector: Seq<char>,
    n: nat,
) -> Seq<(Seq<char>, Seq<char>)> {
    text::each(
        n,
        |i: int|
            text::only_if(
                keys_intersect(selector, bus::config_path(entries[i].0.0@, entries[i].0.1@)),
                (
                    bus::config_path(entries[i].0.0@, entries[i].0.1@),
                    json::json_text(entries[i].1.value@),
                ),
            ),
    )
}

/// The values among the first `n` parameters whose key is this one.
pub open spec fn values_at(
    entries: Seq<((String, String), StoredParam)>,
    key: Seq<char>,
    n: nat,
) -> Seq<(Seq<char>, Seq<char>)> {
    text::each(
        n,
        |i: int|
            text::only_if(
                key == bus::config_path(entries[i].0.0@, entries[i].0.1@),
                (
                    bus::config_path(entries[i].0.0@, entries[i].0.1@),
                    json::json_text(entries[i].1.value@),
                ),
            ),
    )
}

/// What a read is answered holds the values: whoever reads the text of a
/// covered parameter finds the value that the store has.
pub open spec fn answers_read_back(
    entries: Seq<((String, String), StoredParam)>,
    selector: Seq<char>,
) -> bool {
    forall|i: int|
        0 <= i < entries.len() && keys_intersect(
            selector,
            bus::config_path((#[trigger] entries[i]).0.0@, entries[i].0.1@),
        ) ==> json::reads_back(json::json_text(entries[i].1.value@), entries[i].1.value@)
}

/// The unit and the name of every parameter are key segments, as those of a
/// house without errors are.
pub open spec fn addressable(entries: Seq<((String, String), StoredParam)>) -> bool {
    forall|i: int|
        0 <= i < entries.len() ==> validate::is_segment((#[trigger] entries[i]).0.0@)
            && validate::is_segment(entries[i].0.1@)
}

/// The parameter that a write targets: exactly one concrete parameter key.
pub open spec fn write_target(key: Seq<char>) -> Option<(Seq<char>, Seq<char>)> {
    let pieces = text::split_at_each(key, '/');
    if pieces.len() == 4 && pieces[0] == "home"@ && pieces[1] == "config"@ && !pieces[2].contains('*')
        && !pieces[3].contains('*') {
        Some((pieces[2], pieces[3]))
    } else {
        None
    }
}

/// The payload of an error reply.
pub open spec fn error_payload(message: Seq<char>) -> Seq<char> {
    json::json_text(JsonView::Object(seq![("error"@, JsonView::Str(message))]))
}

fn refused(message: &str) -> (r: ConfigReply)
    ensures
        r matches ConfigReply::Refused(t) && t@ == error_payload(message@),
{
    let mut m: NameMap<Json> = NameMap::new();
    let name = "error".to_owned();
    let value = Json::str(message);
    m.insert(name, value);
    let j = Json::Object(m);
    assert(j@->Object_0 =~= seq![("error"@, JsonView::Str(message@))]);
    ConfigReply::Refused(j.to_string())
}

/// Answers a read: the current value of every parameter the selector covers.
fn config_values(store: &ConfigStore, selector: &str) -> (r: Vec<(String, String)>)
    ensures
        text::views(r@) == covered_values(store.params@, selector@, store.params@.len()),
        concrete(selector@) && addressable(store.params@) ==> text::views(r@) == values_at(
            store.params@,
            selector@,
            store.params@.len(),
        ),
        answers_read_back(store.params@, selector@),
{
    let matches = |unit: &str, param: &str| -> (hit: bool)
        ensures
            hit == keys_intersect(selector@, bus::config_path(unit@, param@)),
            concrete(selector@) && concrete(bus::config_path(unit@, param@)) ==> hit == (
            selector@ == bus::config_path(unit@, param@)),
        { intersects(selector, config_key(unit, param).as_str()) };
    let found = store.read(matches);
    let ghost n = store.params@.len();
    let ghost keep = choose|keep: Seq<bool>|
        {
            &&& keep.len() == store.params@.len()
            &&& forall|i: int|
                0 <= i < keep.len() ==> config::answers(
                    matches,
                    store.params@[i].0.0@,
                    store.params@[i].0.1@,
                    #[trigger] keep[i],
                )
            &&& text::views(found@) == #[trigger] config::kept_values(store.params@, keep, n)
        };
    proof {
        assert forall|i: int| 0 <= i < n implies #[trigger] keep[i] == keys_intersect(
            selector@,
            bus::config_path(store.params@[i].0.0@, store.params@[i].0.1@),
        ) by {
            assert(config::answers(
                matches,
                store.params@[i].0.0@,
                store.params@[i].0.1@,
                keep[i],
            ));
        }
        lemma_written(store.params@, keep, selector@, n);
        if concrete(selector@) && addressable(store.params@) {
            assert forall|i: int| 0 <= i < n implies keys_intersect(
                selector@,
                bus::config_path((#[trigger] store.params@[i]).0.0@, store.params@[i].0.1@),
            ) == (selector@ == bus::config_path(store.params@[i].0.0@, store.params@[i].0.1@)) by {
                addresses::law_config_keys_lead_back(
                    store.params@[i].0.0@,
                    store.params@[i].0.1@,
                );
                assert(config::answers(
                    matches,
                    store.params@[i].0.0@,
                    store.params@[i].0.1@,
                    keep[i],
                ));
            }
            lemma_values_at(store.params@, selector@, n);
        }
    }
    let mut out: Vec<(String, String)> = Vec::new();
    for i in 0..found.len()
        invariant
            text::views(out@) == written(text::views(found@), i as nat),
            forall|k: int|
                0 <= k < i ==> json::reads_back(
                    json::json_text((#[trigger] found@[k]).2@),
                    found@[k].2@,
                ),
    {
        assert(text::views(found@)[i as int] == found@[i as int]@);
        let (unit, param, value) = &found[i];
        out.push((config_key(unit.as_str(), param.as_str()), value.to_string()));
    }
    proof {
        let entries = store.params@;
        let f = |i: int|
            text::only_if(keep[i], (entries[i].0.0@, entries[i].0.1@, entries[i].1.value@));
        assert forall|i: int|
            0 <= i < n && keys_intersect(
                selector@,
                bus::config_path((#[trigger] entries[i]).0.0@, entries[i].0.1@),
            ) implies json::reads_back(
            json::json_text(entries[i].1.value@),
            entries[i].1.value@,
        ) by {
            let x = (entries[i].0.0@, entries[i].0.1@, entries[i].1.value@);
            assert(keep[i]);
            assert(f(i)[0] == x);
            text::lemma_each_has(n, f, i, x);
            let k = text::views(found@).index_of(x);
            assert(text::views(found@)[k] == found@[k]@);
        }
    }
    out
}

proof fn lemma_values_at(
    entries: Seq<((String, String), StoredParam)>,
    key: Seq<char>,
    n: nat,
)
    requires
        n <= entries.len(),
        forall|i: int|
            0 <= i < n ==> keys_intersect(
                key,
                bus::config_path((#[trigger] entries[i]).0.0@, entries[i].0.1@),
            ) == (key == bus::config_path(entries[i].0.0@, entries[i].0.1@)),
    ensures
        covered_values(entries, key, n) == values_at(entries, key, n),
    decreases n,
{
    if n > 0 {
        lemma_values_at(entries, key, (n - 1) as nat);
        assert(entries[n - 1] == entries[n - 1]);
    }
}

/// Values with their keys, as they are replied.
pub open spec fn written(found: Seq<(Seq<char>, Seq<char>, JsonView)>, n: nat) -> Seq<
    (Seq<char>, Seq<char>),
> {
    text::each(
        n,
        |i: int| seq![(bus::config_path(found[i].0, found[i].1), json::json_text(found[i].2))],
    )
}

proof fn lemma_written_prefix(
    a: Seq<(Seq<char>, Seq<char>, JsonView)>,
    b: Seq<(Seq<char>, Seq<char>, JsonView)>,
    n: nat,
)
    requires
        n <= a.len(),
        n <= b.len(),
        a.take(n as int) == b.take(n as int),
    ensures
        written(a, n) == written(b, n),
    decreases n,
{
    if n > 0 {
        let m = (n - 1) as nat;
        assert(a.take(m as int) =~= a.take(n as int).take(m as int));
        assert(b.take(m as int) =~= b.take(n as int).take(m as int));
        lemma_written_prefix(a, b, m);
        assert(a.take(n as int)[n - 1] == a[n - 1]);
        assert(b.take(n as int)[n - 1] == b[n - 1]);
    }
}

proof fn lemma_written(
    entries: Seq<((String, String), StoredParam)>,
    keep: Seq<bool>,
    selector: Seq<char>,
    n: nat,
)
    requires
        n <= entries.len(),
        n <= keep.len(),
        forall|i: int|
            0 <= i < n ==> #[trigger] keep[i] == keys_intersect(
                selector,
                bus::config_path(entries[i].0.0@, entries[i].0.1@),
            ),
    ensures
        written(
            config::kept_values(entries, keep, n),
            config::kept_values(entries, keep, n).len(),
        ) == covered_values(entries, selector, n),
    decreases n,
{
    let kept = config::kept_values(entries, keep, n);
    if n > 0 {
        let m = (n - 1) as nat;
        lemma_written(entries, keep, selector, m);
        let head = config::kept_values(entries, keep, m);
        assert(kept.take(head.len() as int) =~= head.take(head.len() as int));
        lemma_written_prefix(kept, head, head.len());
        assert(keep[n - 1] == keys_intersect(
            selector,
            bus::config_path(entries[n - 1].0.0@, entries[n - 1].0.1@),
        ));
        if keep[n - 1] {
            assert(kept.len() == head.len() + 1);
            assert(kept[head.len() as int] == (
                entries[n - 1].0.0@,
                entries[n - 1].0.1@,
                entries[n - 1].1.value@,
            ));
            assert(written(kept, kept.len()) == written(kept, head.len()) + seq![
                (
                    bus::config_path(entries[n - 1].0.0@, entries[n - 1].0.1@),
                    json::json_text(entries[n - 1].1.value@),
                ),
            ]);
        } else {
            assert(kept.len() == head.len());
        }
    } else {
        assert(kept.len() == 0);
    }
}

/// Answers a query on `home/config/{unit}/{param}`: without payload it reads
/// the current values, with payload it is a validated write.
pub fn config_query(store: &mut ConfigStore, key: &str, payload: Option<Vec<u8>>) -> (r:
    ConfigReply)
    ensures
        config::in_bounds(old(store).params@) ==> config::in_bounds(final(store).params@),
        match payload {
            None => {
                &&& *final(store) == *old(store)
                &&& r matches ConfigReply::Values(v) && text::views(v@) == covered_values(
                    old(store).params@,
                    key@,
                    old(store).params@.len(),
                )
                &&& answers_read_back(old(store).params@, key@)
                &&& concrete(key@) && addressable(old(store).params@) ==> (r matches ConfigReply::Values(
                    v,
                ) && text::views(v@) == values_at(
                    old(store).params@,
                    key@,
                    old(store).params@.len(),
                ))
            },
            Some(bytes) => match write_target(key@) {
                None => {
                    &&& *final(store) == *old(store)
                    &&& r matches ConfigReply::Refused(t) && t@ == error_payload(
                        "a write must target home/config/{unit}/{param}"@,
                    )
                },
                Some((unit, param)) => match json::json_document(bytes@) {
                    Err(_) => {
                        &&& *final(store) == *old(store)
                        &&& r matches ConfigReply::Refused(t) && t@ == error_payload(
                            "payload is not JSON"@,
                        )
                    },
                    Ok(value) => match (config::stored_in(old(store).params@, unit, param), r) {
                        (None, ConfigReply::Refused(t)) => {
                            &&& *final(store) == *old(store)
                            &&& t@ == error_payload("unknown parameter "@ + unit + "/"@ + param)
                        },
                        (Some(stored), reply) => match (
                            config::fault(
                                stored.param_type,
                                stored.constraint,
                                value,
                                config::shown_number(value),
                            ),
                            reply,
                        ) {
                            (Some(message), ConfigReply::Refused(t)) => {
                                &&& *final(store) == *old(store)
                                &&& t@ == error_payload(message)
                            },
                            (None, ConfigReply::Stored { key: k, text: t }) => {
                                &&& k@ == key@
                                &&& t@ == json::json_text(value)
                                &&& json::reads_back(t@, value)
                                &&& forall|u: Seq<char>, p: Seq<char>|
                                    #[trigger] config::stored_in(final(store).params@, u, p) == if u
                                        == unit && p == param {
                                        Some(config::StoredView { value, ..stored })
                                    } else {
                                        config::stored_in(old(store).params@, u, p)
                                    }
                            },
                            _ => false,
                        },
                        _ => false,
                    },
                },
            },
        },
{
    let bytes = match payload {
        Some(bytes) => bytes,
        None => {
            return ConfigReply::Values(config_values(store, key));
        },
    };
    let pieces = text::split(key, '/');
    assert(forall|k: int|
        0 <= k < pieces@.len() ==> #[trigger] text::views(pieces@)[k] == pieces@[k]@);
    if pieces.len() != 4 || !str_eq(pieces[0].as_str(), "home") || !str_eq(
        pieces[1].as_str(),
        "config",
    ) || scan::has_char(pieces[2].as_str(), '*') || scan::has_char(pieces[3].as_str(), '*') {
        return refused("a write must target home/config/{unit}/{param}");
    }
    let value = match Json::parse(bytes.as_slice()) {
        Ok(value) => value,
        Err(_) => return refused("payload is not JSON"),
    };
    assert(config::number_text(value) == config::shown_number(value@));
    match store.write(pieces[2].as_str(), pieces[3].as_str(), value) {
        Ok(stored) => ConfigReply::Stored { key: key.to_owned(), text: stored.to_string() },
        Err(message) => refused(message.as_str()),
    }
}

proof fn lemma_found<K: names::Key, T>(s: Seq<(K, T)>, name: K::V) -> (i: int)
    requires
        names::lookup(s, name) is Some,
    ensures
        0 <= i < s.len(),
        s[i].0@ == name,
        names::lookup(s, name) == Some(s[i].1),
    decreases s.len(),
{
    if s[0].0@ == name {
        0
    } else {
        let i = lemma_found(s.drop_first(), name);
        assert(s.drop_first()[i] == s[i + 1]);
        i + 1
    }
}

proof fn lemma_target_path(key: Seq<char>)
    ensures
        write_target(key) matches Some((unit, param)) ==> key == bus::config_path(unit, param),
{
    let pieces = text::split_at_each(key, '/');
    if write_target(key) is Some {
        text::lemma_join_split(key, '/');
        reveal_strlit("/");
        reveal_strlit("home");
        reveal_strlit("config");
        reveal_strlit("home/config/");
        reveal_with_fuel(text::joined, 5);
        let a = pieces.drop_last();
        let b = a.drop_last();
        let c = b.drop_last();
        assert(c[0] == "home"@ && b[1] == "config"@ && a[2] == pieces[2]);
        assert(text::joined(c, seq!['/']) == "home"@);
        assert(text::joined(b, seq!['/']) == "home"@ + seq!['/'] + "config"@);
        assert(key == "home"@ + seq!['/'] + "config"@ + seq!['/'] + pieces[2] + seq!['/']
            + pieces[3]);
        assert("/"@ =~= seq!['/']);
        assert("home"@ + seq!['/'] + "config"@ + seq!['/'] =~= "home/config/"@);
    }
}

proof fn lemma_only_part<T>(n: nat, f: spec_fn(int) -> Seq<T>, i: int)
    requires
        0 <= i < n,
        forall|k: int| 0 <= k < n && k != i ==> (#[trigger] f(k)).len() == 0,
    ensures
        text::each(n, f) == f(i),
    decreases n,
{
    let m = (n - 1) as nat;
    if i == m {
        text::lemma_each_empty(m, f);
        assert(text::each(m, f) =~= Seq::<T>::empty());
        assert(Seq::<T>::empty() + f(i) =~= f(i));
    } else {
        lemma_only_part(m, f, i);
        assert(f(m as int).len() == 0);
        assert(f(i) + f(m as int) =~= f(i));
    }
}

/// What a write stored is what a read of the same key is answered, and
/// nothing else: after an accepted write of `value` the parameter's key comes
/// back with its text.
pub proof fn law_a_write_is_read_back(after: ConfigStore, key: Seq<char>, value: JsonView)
    requires
        names::ascending(after.params@),
        addressable(after.params@),
        write_target(key) is Some,
        config::stored_in(
            after.params@,
            write_target(key)->Some_0.0,
            write_target(key)->Some_0.1,
        ) matches Some(stored) && stored.value == value,
    ensures
        concrete(key),
        values_at(after.params@, key, after.params@.len()) == seq![(key, json::json_text(value))],
{
    let (unit, param) = write_target(key)->Some_0;
    lemma_target_path(key);
    let entries = after.params@;
    let i = lemma_found(entries, (unit, param));
    addresses::law_config_keys_lead_back(unit, param);
    let f = |i: int|
        text::only_if(
            key == bus::config_path(entries[i].0.0@, entries[i].0.1@),
            (
                bus::config_path(entries[i].0.0@, entries[i].0.1@),
                json::json_text(entries[i].1.value@),
            ),
        );
    assert forall|k: int| 0 <= k < entries.len() && k != i implies (#[trigger] f(k)).len() == 0 by {
        addresses::law_config_keys_lead_back(entries[k].0.0@, entries[k].0.1@);
        if key == bus::config_path(entries[k].0.0@, entries[k].0.1@) {
            names::lemma_lookup_entry(entries, k);
            names::lemma_lookup_entry(entries, i);
            names::lemma_names_differ(entries, i, k);
        }
    }
    lemma_only_part(entries.len(), f, i);
    assert(f(i) =~= seq![(key, json::json_text(value))]);
}

} // verus!
