//! The actual world, put together from what the core's last-value queryables
//! answer — meta (manifest hashes and bytes, grants, applied commit) and
//! config (current parameter values) — and kept current while a supervisor
//! applies a plan.

use crate::config;
use crate::config::ConfigStore;
use crate::grants::Grant;
use crate::json;
use crate::json::Json;
use crate::json::JsonView;
use crate::names;
use crate::names::NameMap;
use crate::names::PairMap;
use crate::plan::World;
use crate::plan::WorldUnit;
use crate::scan;
use crate::text;
use crate::text::str_eq;
use vstd::prelude::*;

verus! {

broadcast use crate::text::group_views;

/// What a meta key tells of.
#[derive(Debug, PartialEq, Eq)]
pub enum MetaKey {
    Grants,
    AppliedCommit,
    Unit { unit: String, field: String },
    Other,
}

/// What a meta key tells of.
pub enum MetaKeyView {
    Grants,
    AppliedCommit,
    Unit { unit: Seq<char>, field: Seq<char> },
    Other,
}

impl View for MetaKey {
    type V = MetaKeyView;

    open spec fn view(&self) -> MetaKeyView {
        match self {
            MetaKey::Grants => MetaKeyView::Grants,
            MetaKey::AppliedCommit => MetaKeyView::AppliedCommit,
            MetaKey::Unit { unit, field } => MetaKeyView::Unit { unit: unit@, field: field@ },
            MetaKey::Other => MetaKeyView::Other,
        }
    }
}

/// What a meta key tells of.
pub open spec fn meta_of(key: Seq<char>) -> MetaKeyView {
    let p = text::split_at_each(key, '/');
    if p.len() != 4 || p[0] != "home"@ || p[1] != "meta"@ {
        MetaKeyView::Other
    } else if p[2] == "system"@ && p[3] == "grants"@ {
        MetaKeyView::Grants
    } else if p[2] == "system"@ && p[3] == "applied_commit"@ {
        MetaKeyView::AppliedCommit
    } else {
        MetaKeyView::Unit { unit: p[2], field: p[3] }
    }
}

/// What a meta key tells of.
pub fn meta_key(key: &str) -> (r: MetaKey)
    ensures
        r@ == meta_of(key@),
{
    let p = text::split(key, '/');
    assert(forall|k: int| 0 <= k < p@.len() ==> #[trigger] text::views(p@)[k] == p@[k]@);
    if p.len() != 4 || !str_eq(p[0].as_str(), "home") || !str_eq(p[1].as_str(), "meta") {
        MetaKey::Other
    } else if str_eq(p[2].as_str(), "system") && str_eq(p[3].as_str(), "grants") {
        MetaKey::Grants
    } else if str_eq(p[2].as_str(), "system") && str_eq(p[3].as_str(), "applied_commit") {
        MetaKey::AppliedCommit
    } else {
        MetaKey::Unit { unit: p[2].clone(), field: p[3].clone() }
    }
}

/// What is known of a running unit.
pub struct UnitView {
    pub manifest: Seq<u8>,
    pub manifest_hash: Seq<char>,
    pub files_hash: Seq<char>,
}

impl View for WorldUnit {
    type V = UnitView;

    open spec fn view(&self) -> UnitView {
        UnitView {
            manifest: self.manifest@,
            manifest_hash: self.manifest_hash@,
            files_hash: self.files_hash@,
        }
    }
}

/// What is known of the unit with this name.
pub open spec fn known(world: World, unit: Seq<char>) -> Option<UnitView> {
    match names::lookup(world.units@, unit) {
        Some(u) => Some(u@),
        None => None,
    }
}

/// The live value of a parameter, where it is known.
pub open spec fn live_value(world: World, unit: Seq<char>, param: Seq<char>) -> Option<JsonView> {
    match names::lookup(world.params@, (unit, param)) {
        Some(v) => Some(v@),
        None => None,
    }
}

/// Bytes that are UTF-8 are taken for the text they encode.
pub open spec fn text_meant(payload: Seq<u8>) -> bool {
    vstd::utf8::valid_utf8(payload) ==> scan::lossy_text(payload) == vstd::utf8::decode_utf8(payload)
}

/// A unit of which a field became known.
pub open spec fn with_field(before: Option<UnitView>, field: Seq<char>, payload: Seq<u8>) -> UnitView {
    let u = match before {
        Some(u) => u,
        None => UnitView {
            manifest: Seq::empty(),
            manifest_hash: Seq::empty(),
            files_hash: Seq::empty(),
        },
    };
    if field == "manifest"@ {
        UnitView { manifest: payload, ..u }
    } else if field == "manifest_hash"@ {
        UnitView { manifest_hash: scan::lossy_text(payload), ..u }
    } else if field == "files_hash"@ {
        UnitView { files_hash: scan::lossy_text(payload), ..u }
    } else {
        u
    }
}

/// The parameter that a config key names.
pub open spec fn param_of(key: Seq<char>) -> Option<(Seq<char>, Seq<char>)> {
    let p = text::split_at_each(key, '/');
    if p.len() == 4 && p[0] == "home"@ && p[1] == "config"@ {
        Some((p[2], p[3]))
    } else {
        None
    }
}

/// Everything but the units is the same.
pub open spec fn same_but_units(a: World, b: World) -> bool {
    a.label == b.label && a.live == b.live && a.params == b.params && a.grants == b.grants
        && a.applied_commit == b.applied_commit
}

/// Everything but the parameters is the same.
pub open spec fn same_but_params(a: World, b: World) -> bool {
    a.label == b.label && a.live == b.live && a.units == b.units && a.grants == b.grants
        && a.applied_commit == b.applied_commit
}

impl World {
    /// The world behind an endpoint, before anything was read of it.
    pub fn live(endpoint: &str) -> (r: World)
        ensures
            r.label@ == endpoint@,
            r.live,
            r.units@.len() == 0,
            r.params@.len() == 0,
            r.grants@.len() == 0,
            r.applied_commit is None,
    {
        World {
            label: endpoint.to_owned(),
            live: true,
            units: NameMap::new(),
            params: PairMap::new(),
            grants: Vec::new(),
            applied_commit: None,
        }
    }

    /// Takes a reply from the meta space, all but the grant table.
    pub fn on_meta(&mut self, key: &str, payload: Vec<u8>)
        ensures
            match meta_of(key@) {
                MetaKeyView::AppliedCommit => {
                    &&& final(self).applied_commit matches Some(c) && c@ == scan::lossy_text(
                        payload@,
                    )
                    &&& same_but_units(
                        *final(self),
                        World { applied_commit: final(self).applied_commit, ..*old(self) },
                    )
                    &&& final(self).units == old(self).units
                    &&& text_meant(payload@)
                },
                MetaKeyView::Unit { unit, field } => {
                    &&& same_but_units(*final(self), *old(self))
                    &&& field == "manifest_hash"@ || field == "files_hash"@ ==> text_meant(payload@)
                    &&& forall|u: Seq<char>|
                        #[trigger] known(*final(self), u) == if u == unit {
                            Some(with_field(known(*old(self), u), field, payload@))
                        } else {
                            known(*old(self), u)
                        }
                },
                _ => *final(self) == *old(self),
            },
    {
        match meta_key(key) {
            MetaKey::AppliedCommit => {
                self.applied_commit = Some(scan::lossy(payload.as_slice()));
            },
            MetaKey::Unit { unit, field } => {
                let ghost before = self.units@;
                let ghost named = unit@;
                let mut entry = match self.units.take(unit.as_str()) {
                    Some(entry) => entry,
                    None => WorldUnit {
                        manifest: Vec::new(),
                        manifest_hash: String::new(),
                        files_hash: String::new(),
                    },
                };
                let ghost middle = self.units@;
                proof {
                    reveal_strlit("manifest");
                    reveal_strlit("manifest_hash");
                    reveal_strlit("files_hash");
                    assert("manifest"@.len() != "manifest_hash"@.len());
                    assert("manifest"@.len() != "files_hash"@.len());
                }
                if str_eq(field.as_str(), "manifest") {
                    entry.manifest = payload;
                } else if str_eq(field.as_str(), "manifest_hash") {
                    entry.manifest_hash = scan::lossy(payload.as_slice());
                } else if str_eq(field.as_str(), "files_hash") {
                    entry.files_hash = scan::lossy(payload.as_slice());
                }
                self.units.insert(unit, entry);
                proof {
                    assert forall|u: Seq<char>|
                        #[trigger] names::lookup(self.units@, u) == if u == named {
                            Some(entry)
                        } else {
                            names::lookup(before, u)
                        } by {
                        names::lemma_lookup_put(middle, unit, entry, u);
                        names::lemma_lookup_without(before, named, u);
                    }
                }
            },
            _ => {},
        }
    }

    /// Takes a reply from the config space. A payload that is not JSON tells
    /// nothing.
    pub fn on_config(&mut self, key: &str, payload: &[u8])
        ensures
            same_but_params(*final(self), *old(self)),
            match (param_of(key@), json::json_document(payload@)) {
                (Some((unit, param)), Ok(value)) => forall|u: Seq<char>, p: Seq<char>|
                    #[trigger] live_value(*final(self), u, p) == if u == unit && p == param {
                        Some(value)
                    } else {
                        live_value(*old(self), u, p)
                    },
                _ => *final(self) == *old(self),
            },
    {
        let p = text::split(key, '/');
        assert(forall|k: int| 0 <= k < p@.len() ==> #[trigger] text::views(p@)[k] == p@[k]@);
        if p.len() != 4 || !str_eq(p[0].as_str(), "home") || !str_eq(p[1].as_str(), "config") {
            return;
        }
        match Json::parse(payload) {
            Ok(value) => self.record_param(p[2].as_str(), p[3].as_str(), value),
            Err(_) => {},
        }
    }

    /// Records the live value of a parameter.
    pub fn record_param(&mut self, unit: &str, param: &str, value: Json)
        ensures
            same_but_params(*final(self), *old(self)),
            forall|u: Seq<char>, p: Seq<char>|
                #[trigger] live_value(*final(self), u, p) == if u == unit@ && p == param@ {
                    Some(value@)
                } else {
                    live_value(*old(self), u, p)
                },
    {
        let ghost before = self.params@;
        let pair = (unit.to_owned(), param.to_owned());
        self.params.insert(pair, value);
        proof {
            assert forall|u: Seq<char>, p: Seq<char>|
                #[trigger] names::lookup(self.params@, (u, p)) == if u == unit@ && p == param@ {
                    Some(value)
                } else {
                    names::lookup(before, (u, p))
                } by {
                names::lemma_lookup_put(before, pair, value, (u, p));
            }
        }
    }

    /// Takes the live values from the store, and no others.
    pub fn read_store(&mut self, store: &ConfigStore)
        ensures
            same_but_params(*final(self), *old(self)),
            forall|u: Seq<char>, p: Seq<char>|
                #[trigger] live_value(*final(self), u, p) == match config::stored_in(
                    store.params@,
                    u,
                    p,
                ) {
                    Some(stored) => Some(stored.value),
                    None => None,
                },
    {
        let ghost stored = store.params@;
        let n = store.params.len();
        self.params = PairMap::new();
        assert(stored.take(0) =~= Seq::empty());
        for i in 0..n
            invariant
                n == stored.len(),
                stored == store.params@,
                names::ascending(stored),
                same_but_params(*self, *old(self)),
                forall|u: Seq<char>, p: Seq<char>|
                    #[trigger] live_value(*self, u, p) == match names::lookup(
                        stored.take(i as int),
                        (u, p),
                    ) {
                        Some(s) => Some(s.value@),
                        None => None,
                    },
        {
            let ghost before = *self;
            let key = store.params.name(i);
            self.record_param(key.0.as_str(), key.1.as_str(), store.params.value(i).value.copy());
            proof {
                assert forall|u: Seq<char>, p: Seq<char>|
                    #[trigger] live_value(*self, u, p) == match names::lookup(
                        stored.take(i + 1),
                        (u, p),
                    ) {
                        Some(s) => Some(s.value@),
                        None => None,
                    } by {
                    names::lemma_lookup_take(stored, i as int, (u, p));
                    assert(live_value(before, u, p) == match names::lookup(
                        stored.take(i as int),
                        (u, p),
                    ) {
                        Some(s) => Some(s.value@),
                        None => None,
                    });
                }
            }
        }
        assert(stored.take(n as int) =~= stored);
    }

    /// Records a unit as the repo has it, once an apply step ran it.
    pub fn record_unit(&mut self, name: String, unit: WorldUnit)
        ensures
            same_but_units(*final(self), *old(self)),
            final(self).units@ == names::put(old(self).units@, name, unit),
    {
        self.units.insert(name, unit);
    }

    /// Forgets a unit that was destroyed.
    pub fn forget_unit(&mut self, name: &str)
        ensures
            same_but_units(*final(self), *old(self)),
            final(self).units@ == names::without(old(self).units@, name@),
            forall|u: Seq<char>|
                #[trigger] known(*final(self), u) == if u == name@ {
                    None
                } else {
                    known(*old(self), u)
                },
    {
        let ghost before = self.units@;
        let _ = self.units.take(name);
        proof {
            assert forall|u: Seq<char>|
                #[trigger] names::lookup(self.units@, u) == if u == name@ {
                    None
                } else {
                    names::lookup(before, u)
                } by {
                names::lemma_lookup_without(before, name@, u);
            }
        }
    }

    /// The grant table and the applied commit advance, on a fully applied
    /// plan only: a halted walk re-plans exactly the remaining work.
    pub fn record_applied(&mut self, grants: Vec<Grant>, base_commit: Option<String>)
        ensures
            final(self).label == old(self).label,
            final(self).live == old(self).live,
            final(self).units == old(self).units,
            final(self).params == old(self).params,
            final(self).grants == grants,
            final(self).applied_commit == match base_commit {
                Some(c) => Some(c),
                None => old(self).applied_commit,
            },
    {
        self.grants = grants;
        match base_commit {
            Some(c) => {
                self.applied_commit = Some(c);
            },
            None => {},
        }
    }
}

} // verus!
