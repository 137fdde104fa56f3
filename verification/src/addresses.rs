//! Keys lead back to what they were made for.

use crate::bus;
use crate::config;
use crate::config::StoredParam;
use crate::laws;
use crate::names;
use crate::repo::House;
use crate::repo::LoadedUnit;
use crate::supervisor::serve;
use crate::text;
use crate::validate;
use crate::world;
use crate::world::MetaKeyView;
use vstd::prelude::*;

verus! {

proof fn lemma_segment_is_plain(name: Seq<char>)
    requires
        validate::is_segment(name),
    ensures
        !name.contains('/'),
        serve::literal_segment(name),
{
    if name.contains('/') {
        let i = name.index_of('/');
        assert(validate::segment_char(name[i]));
    }
    if name.contains('*') {
        let i = name.index_of('*');
        assert(validate::segment_char(name[i]));
    }
    if name.contains('$') {
        let i = name.index_of('$');
        assert(validate::segment_char(name[i]));
    }
    if name.contains('#') {
        let i = name.index_of('#');
        assert(validate::segment_char(name[i]));
    }
    if name.contains('?') {
        let i = name.index_of('?');
        assert(validate::segment_char(name[i]));
    }
}

/// Four segments without a slash, written with slashes between them, split
/// into the four.
proof fn lemma_four(a: Seq<char>, b: Seq<char>, c: Seq<char>, d: Seq<char>)
    requires
        !a.contains('/'),
        !b.contains('/'),
        !c.contains('/'),
        !d.contains('/'),
    ensures
        text::split_at_each(
            a + seq!['/'] + b + seq!['/'] + c + seq!['/'] + d,
            '/',
        ) == seq![a, b, c, d],
{
    let parts = seq![a, b, c, d];
    let sep = seq!['/'];
    reveal_with_fuel(text::joined, 5);
    assert(parts.drop_last() =~= seq![a, b, c]);
    assert(seq![a, b, c].drop_last() =~= seq![a, b]);
    assert(seq![a, b].drop_last() =~= seq![a]);
    assert(text::joined(parts, sep) =~= a + sep + b + sep + c + sep + d);
    text::lemma_split_join(parts, '/');
}

/// The key of a parameter addresses that parameter: a write to it is a write
/// of the parameter, and what is read at it is the parameter's live value.
pub proof fn law_config_keys_lead_back(unit: Seq<char>, param: Seq<char>)
    requires
        validate::is_segment(unit),
        validate::is_segment(param),
    ensures
        serve::write_target(bus::config_path(unit, param)) == Some((unit, param)),
        world::param_of(bus::config_path(unit, param)) == Some((unit, param)),
        serve::concrete(bus::config_path(unit, param)),
{
    reveal_strlit("home");
    reveal_strlit("config");
    reveal_strlit("home/config/");
    reveal_strlit("/");
    lemma_segment_is_plain(unit);
    lemma_segment_is_plain(param);
    lemma_four("home"@, "config"@, unit, param);
    assert(bus::config_path(unit, param) =~= "home"@ + seq!['/'] + "config"@ + seq!['/'] + unit
        + seq!['/'] + param);
}

proof fn lemma_meta(unit: Seq<char>, field: Seq<char>)
    requires
        validate::is_segment(unit),
        !field.contains('/'),
        field != "grants"@,
        field != "applied_commit"@,
    ensures
        world::meta_of("home/meta/"@ + unit + (seq!['/'] + field)) == (MetaKeyView::Unit {
            unit,
            field,
        }),
{
    reveal_strlit("home");
    reveal_strlit("meta");
    reveal_strlit("home/meta/");
    lemma_segment_is_plain(unit);
    lemma_four("home"@, "meta"@, unit, field);
    assert("home/meta/"@ + unit + (seq!['/'] + field) =~= "home"@ + seq!['/'] + "meta"@ + seq![
        '/',
    ] + unit + seq!['/'] + field);
}

/// The keys under which the supervisor serves a unit's manifest and hashes
/// are read back as that unit's.
pub proof fn law_meta_keys_lead_back(unit: Seq<char>)
    requires
        validate::is_segment(unit),
    ensures
        world::meta_of("home/meta/"@ + unit + "/manifest"@) == (MetaKeyView::Unit {
            unit,
            field: "manifest"@,
        }),
        world::meta_of("home/meta/"@ + unit + "/manifest_hash"@) == (MetaKeyView::Unit {
            unit,
            field: "manifest_hash"@,
        }),
        world::meta_of("home/meta/"@ + unit + "/files_hash"@) == (MetaKeyView::Unit {
            unit,
            field: "files_hash"@,
        }),
{
    reveal_strlit("grants");
    reveal_strlit("applied_commit");
    reveal_strlit("manifest");
    reveal_strlit("/manifest");
    reveal_strlit("manifest_hash");
    reveal_strlit("/manifest_hash");
    reveal_strlit("files_hash");
    reveal_strlit("/files_hash");
    assert("/manifest"@ =~= seq!['/'] + "manifest"@);
    assert("/manifest_hash"@ =~= seq!['/'] + "manifest_hash"@);
    assert("/files_hash"@ =~= seq!['/'] + "files_hash"@);
    assert("manifest"@.len() == 8);
    assert("manifest_hash"@.len() == 13);
    assert("files_hash"@.len() == 10);
    assert("grants"@.len() == 6);
    assert("applied_commit"@.len() == 14);
    lemma_meta(unit, "manifest"@);
    lemma_meta(unit, "manifest_hash"@);
    lemma_meta(unit, "files_hash"@);
}

proof fn lemma_declared_by(units: Seq<LoadedUnit>, unit: Seq<char>, param: Seq<char>) -> (i: int)
    requires
        config::param_spec(units, unit, param) is Some,
    ensures
        0 <= i < units.len(),
        units[i].manifest.unit.name@ == unit,
        config::unit_param(units[i], param) is Some,
    decreases units.len(),
{
    if units.last().manifest.unit.name@ == unit && config::unit_param(units.last(), param) is Some {
        units.len() - 1
    } else {
        lemma_declared_by(units.drop_last(), unit, param)
    }
}

proof fn lemma_listed<T>(s: Seq<(String, T)>, name: Seq<char>) -> (i: int)
    requires
        names::lookup(s, name) is Some,
    ensures
        0 <= i < s.len(),
        s[i].0@ == name,
    decreases s.len(),
{
    if s[0].0@ == name {
        0
    } else {
        let i = lemma_listed(s.drop_first(), name);
        i + 1
    }
}

/// Every parameter of a house without errors has a key of its own.
pub proof fn law_valid_parameters_are_addressable(
    h: House,
    entries: Seq<((String, String), StoredParam)>,
)
    requires
        validate::names_errors(h).len() == 0,
        names::ascending(entries),
        config::all_at_defaults(entries, h.units@),
    ensures
        serve::addressable(entries),
{
    laws::law_valid_names_are_segments(h);
    assert forall|i: int| 0 <= i < entries.len() implies validate::is_segment(
        (#[trigger] entries[i]).0.0@,
    ) && validate::is_segment(entries[i].0.1@) by {
        let unit = entries[i].0.0@;
        let param = entries[i].0.1@;
        names::lemma_lookup_entry(entries, i);
        assert(config::stored_in(entries, unit, param) is Some);
        let k = lemma_declared_by(h.units@, unit, param);
        let j = lemma_listed(h.units@[k].manifest.params->Some_0@, param);
        assert(h.units@[k].manifest.params->Some_0@[j].0@ == param);
    }
}

} // verus!
