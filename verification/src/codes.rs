//! Every failure that the pipeline reports has a code with an explanation.

use crate::error;
use crate::error::ErrorView;
use crate::error::CODES;
use crate::expand;
use crate::expand::ExpandedView;
use crate::grants;
use crate::grants::GrantView;
use crate::manifest::EntityFile;
use crate::manifest::ParamSpec;
use crate::manifest::ParamType;
use crate::manifest::UnitManifest;
use crate::manifest::ViewSpec;
use crate::manifest::WidgetSpec;
use crate::repo;
use crate::repo::House;
use crate::repo::HouseFiles;
use crate::repo::LoadedEntity;
use crate::repo::LoadedUnit;
use crate::repo::ReadFile;
use crate::tomlvalue::TomlValue;
use crate::validate;
use vstd::prelude::*;

verus! {

/// The code has an explanation.
pub open spec fn explained(code: Seq<char>) -> bool {
    error::explanation(code) is Some
}

/// Every failure has a code with an explanation.
pub open spec fn all_explained(errors: Seq<ErrorView>) -> bool {
    forall|i: int| 0 <= i < errors.len() ==> explained((#[trigger] errors[i]).code)
}

proof fn lemma_registered(i: int, from: int)
    requires
        0 <= from <= i < CODES@.len(),
    ensures
        error::explained_from(CODES@[i].0@, from) is Some,
    decreases i - from,
{
    if CODES@[from].0@ != CODES@[i].0@ {
        lemma_registered(i, from + 1);
    }
}

proof fn lemma_codes()
    ensures
        explained("parse-error"@),
        explained("unsupported-schema"@),
        explained("missing-units-dir"@),
        explained("missing-entities-dir"@),
        explained("invalid-name"@),
        explained("reserved-unit-name"@),
        explained("reserved-room-name"@),
        explained("reserved-zone-name"@),
        explained("zone-room-collision"@),
        explained("zone-pseudo-room"@),
        explained("zone-unknown-room"@),
        explained("duplicate-unit-name"@),
        explained("duplicate-entity-name"@),
        explained("duplicate-entity-id"@),
        explained("invalid-manifest"@),
        explained("unknown-capability"@),
        explained("missing-owner-unit"@),
        explained("owner-mismatch"@),
        explained("virtual-entity-arbitrated"@),
        explained("virtual-entity-commanded"@),
        explained("grant-cycle"@),
        explained("invalid-default"@),
        explained("malformed-constraint"@),
        explained("key-outside-schema"@),
        explained("template-outside-binding-unit"@),
        explained("publish-missing-capability"@),
        explained("exclusive-write-conflict"@),
        explained("arbitrated-uncovered"@),
        explained("virtual-entity-fed"@),
        explained("input-unknown-entity"@),
        explained("input-unpublished-aspect"@),
        explained("state-publish-unbound"@),
        explained("write-mode-required"@),
        explained("entity-id-required"@),
        explained("reserved-class-publish"@),
        explained("entity-dashboard-retired"@),
        explained("dashboard-reserved-view"@),
        explained("dashboard-duplicate-view"@),
        explained("dashboard-view-shape"@),
        explained("dashboard-nested-group"@),
        explained("dashboard-widget-fields"@),
        explained("dashboard-unknown-entity"@),
        explained("dashboard-widget-capability"@),
        explained("dashboard-invalid-aspect"@),
        explained("dashboard-unknown-room"@),
        explained("dashboard-unknown-unit"@),
{
    lemma_registered(0, 0);
    lemma_registered(1, 0);
    lemma_registered(2, 0);
    lemma_registered(3, 0);
    lemma_registered(4, 0);
    lemma_registered(5, 0);
    lemma_registered(6, 0);
    lemma_registered(7, 0);
    lemma_registered(8, 0);
    lemma_registered(9, 0);
    lemma_registered(10, 0);
    lemma_registered(11, 0);
    lemma_registered(12, 0);
    lemma_registered(13, 0);
    lemma_registered(14, 0);
    lemma_registered(15, 0);
    lemma_registered(16, 0);
    lemma_registered(17, 0);
    lemma_registered(18, 0);
    lemma_registered(19, 0);
    lemma_registered(20, 0);
    lemma_registered(21, 0);
    lemma_registered(22, 0);
    lemma_registered(23, 0);
    lemma_registered(24, 0);
    lemma_registered(25, 0);
    lemma_registered(26, 0);
    lemma_registered(27, 0);
    lemma_registered(28, 0);
    lemma_registered(29, 0);
    lemma_registered(30, 0);
    lemma_registered(31, 0);
    lemma_registered(32, 0);
    lemma_registered(33, 0);
    lemma_registered(34, 0);
    lemma_registered(35, 0);
    lemma_registered(36, 0);
    lemma_registered(37, 0);
    lemma_registered(38, 0);
    lemma_registered(39, 0);
    lemma_registered(40, 0);
    lemma_registered(41, 0);
    lemma_registered(42, 0);
    lemma_registered(43, 0);
    lemma_registered(44, 0);
    lemma_registered(45, 0);
}

proof fn lemma_entry_errors(u: LoadedUnit, entry: Seq<char>, raw: Seq<char>)
    ensures
        all_explained(expand::entry_errors(u, entry, raw)),
{
    lemma_codes();
}

proof fn lemma_publish_errors(u: LoadedUnit, n: nat)
    ensures
        all_explained(expand::publish_errors(u, n)),
    decreases n,
{
    if n > 0 {
        lemma_publish_errors(u, (n - 1) as nat);
        let entries = u.manifest.bus->Some_0.publishes@;
        lemma_entry_errors(u, entries[n - 1].0@, entries[n - 1].1.key@);
    }
}

proof fn lemma_subscribe_errors(u: LoadedUnit, n: nat)
    ensures
        all_explained(expand::subscribe_errors(u, n)),
    decreases n,
{
    if n > 0 {
        lemma_subscribe_errors(u, (n - 1) as nat);
        let entries = u.manifest.bus->Some_0.subscribes@;
        lemma_entry_errors(u, entries[n - 1].0@, entries[n - 1].1@);
    }
}

proof fn lemma_unit_errors(u: LoadedUnit)
    ensures
        all_explained(expand::unit_errors(u)),
{
    if u.manifest.bus is Some {
        let bus = u.manifest.bus->Some_0;
        lemma_publish_errors(u, bus.publishes@.len());
        lemma_subscribe_errors(u, bus.subscribes@.len());
    }
}

proof fn lemma_house_key_errors(h: House, n: nat)
    ensures
        all_explained(expand::house_key_errors(h, n)),
    decreases n,
{
    if n > 0 {
        lemma_house_key_errors(h, (n - 1) as nat);
        lemma_unit_errors(h.units@[n - 1]);
    }
}

proof fn lemma_name_errors(subject: Seq<char>, what: Seq<char>, name: Seq<char>, file: Seq<char>)
    ensures
        all_explained(validate::name_errors(subject, what, name, file)),
{
    lemma_codes();
}

proof fn lemma_param_name_errors(u: LoadedUnit, n: nat)
    ensures
        all_explained(validate::param_name_errors(u, n)),
    decreases n,
{
    if n > 0 {
        lemma_param_name_errors(u, (n - 1) as nat);
        let params = u.manifest.params->Some_0@;
        lemma_name_errors(u.manifest.unit.name@ + "."@ + params[n - 1].0@, "parameter name"@, params[n - 1].0@, u.path@);
    }
}

proof fn lemma_unit_name_errors(u: LoadedUnit)
    ensures
        all_explained(validate::unit_name_errors(u)),
{
    lemma_codes();
    let name = u.manifest.unit.name@;
    lemma_name_errors(name, "unit name"@, name, u.path@);
    if u.manifest.params is Some {
        lemma_param_name_errors(u, u.manifest.params->Some_0@.len());
    }
}

proof fn lemma_entity_name_errors(e: LoadedEntity)
    ensures
        all_explained(validate::entity_name_errors(e)),
{
    lemma_name_errors(e.name@, "entity name"@, e.name@, e.path@);
    lemma_name_errors(e.name@, "room"@, e.file.entity.room@, e.path@);
}

proof fn lemma_unit_names_errors(h: House, n: nat)
    ensures
        all_explained(validate::unit_names_errors(h, n)),
    decreases n,
{
    if n > 0 {
        lemma_unit_names_errors(h, (n - 1) as nat);
        lemma_unit_name_errors(h.units@[n - 1]);
    }
}

proof fn lemma_entity_names_errors(h: House, n: nat)
    ensures
        all_explained(validate::entity_names_errors(h, n)),
    decreases n,
{
    if n > 0 {
        lemma_entity_names_errors(h, (n - 1) as nat);
        lemma_entity_name_errors(h.entities@[n - 1]);
    }
}

proof fn lemma_zone_names_errors(h: House, n: nat)
    ensures
        all_explained(validate::zone_names_errors(h, n)),
    decreases n,
{
    if n > 0 {
        lemma_zone_names_errors(h, (n - 1) as nat);
        lemma_name_errors(h.zones@[n - 1].0@, "zone name"@, h.zones@[n - 1].0@, "zones.toml"@);
    }
}

proof fn lemma_view_names_errors(views: Seq<ViewSpec>, n: nat)
    ensures
        all_explained(validate::view_names_errors(views, n)),
    decreases n,
{
    if n > 0 {
        lemma_view_names_errors(views, (n - 1) as nat);
        lemma_name_errors(views[n - 1].name@, "view name"@, views[n - 1].name@, "dashboard.toml"@);
    }
}

proof fn lemma_shared_unit_errors(h: House, n: nat)
    ensures
        all_explained(validate::shared_unit_errors(h, n)),
    decreases n,
{
    if n > 0 {
        lemma_shared_unit_errors(h, (n - 1) as nat);
        lemma_codes();
    }
}

proof fn lemma_shared_entity_errors(h: House, n: nat)
    ensures
        all_explained(validate::shared_entity_errors(h, n)),
    decreases n,
{
    if n > 0 {
        lemma_shared_entity_errors(h, (n - 1) as nat);
        lemma_codes();
    }
}

proof fn lemma_shared_id_errors(h: House, n: nat)
    ensures
        all_explained(validate::shared_id_errors(h, n)),
    decreases n,
{
    if n > 0 {
        lemma_shared_id_errors(h, (n - 1) as nat);
        lemma_codes();
    }
}

proof fn lemma_shape_errors(u: LoadedUnit)
    ensures
        all_explained(validate::shape_errors(u)),
{
    lemma_codes();
}

proof fn lemma_shapes_errors(h: House, n: nat)
    ensures
        all_explained(validate::shapes_errors(h, n)),
    decreases n,
{
    if n > 0 {
        lemma_shapes_errors(h, (n - 1) as nat);
        lemma_shape_errors(h.units@[n - 1]);
    }
}

proof fn lemma_owner_errors(h: House, e: LoadedEntity)
    ensures
        all_explained(validate::owner_errors(h, e)),
{
    lemma_codes();
}

proof fn lemma_entity_errors(h: House, e: LoadedEntity)
    ensures
        all_explained(validate::entity_errors(h, e)),
{
    lemma_codes();
    lemma_owner_errors(h, e);
}

proof fn lemma_entities_errors(h: House, n: nat)
    ensures
        all_explained(validate::entities_errors(h, n)),
    decreases n,
{
    if n > 0 {
        lemma_entities_errors(h, (n - 1) as nat);
        lemma_entity_errors(h, h.entities@[n - 1]);
    }
}

proof fn lemma_members_errors(rooms: Seq<Seq<char>>, zone: Seq<char>, members: Seq<String>, n: nat)
    ensures
        all_explained(validate::members_errors(rooms, zone, members, n)),
    decreases n,
{
    if n > 0 {
        lemma_members_errors(rooms, zone, members, (n - 1) as nat);
        lemma_codes();
    }
}

proof fn lemma_zone_errors(rooms: Seq<Seq<char>>, zone: Seq<char>, members: Seq<String>)
    ensures
        all_explained(validate::zone_errors(rooms, zone, members)),
{
    lemma_codes();
    lemma_members_errors(rooms, zone, members, members.len());
}

proof fn lemma_zones_errors(h: House, n: nat)
    ensures
        all_explained(validate::zones_errors(h, n)),
    decreases n,
{
    if n > 0 {
        lemma_zones_errors(h, (n - 1) as nat);
        lemma_zone_errors(crate::repo::rooms_of(h.entities@), h.zones@[n - 1].0@, h.zones@[n - 1].1@);
    }
}

proof fn lemma_constraints_errors(
    subject: Seq<char>,
    path: Seq<char>,
    t: ParamType,
    table: Seq<(String, TomlValue)>,
    n: nat,
)
    ensures
        all_explained(validate::constraints_errors(subject, path, t, table, n)),
    decreases n,
{
    if n > 0 {
        lemma_constraints_errors(subject, path, t, table, (n - 1) as nat);
        lemma_codes();
    }
}

proof fn lemma_form_errors(subject: Seq<char>, spec: ParamSpec, path: Seq<char>)
    ensures
        all_explained(validate::form_errors(subject, spec, path)),
{
    lemma_codes();
    if spec.constraint is Some {
        let table = spec.constraint->Some_0@;
        lemma_constraints_errors(subject, path, spec.param_type, table, table.len());
    }
}

proof fn lemma_param_errors(subject: Seq<char>, spec: ParamSpec, path: Seq<char>)
    ensures
        all_explained(validate::param_errors(subject, spec, path)),
{
    lemma_codes();
    lemma_form_errors(subject, spec, path);
}

proof fn lemma_unit_params_errors(u: LoadedUnit, n: nat)
    ensures
        all_explained(validate::unit_params_errors(u, n)),
    decreases n,
{
    if n > 0 {
        lemma_unit_params_errors(u, (n - 1) as nat);
        let params = u.manifest.params->Some_0@;
        lemma_param_errors(u.manifest.unit.name@ + "."@ + params[n - 1].0@, params[n - 1].1, u.path@);
    }
}

proof fn lemma_params_errors(h: House, n: nat)
    ensures
        all_explained(validate::params_errors(h, n)),
    decreases n,
{
    if n > 0 {
        lemma_params_errors(h, (n - 1) as nat);
        let u = h.units@[n - 1];
        if u.manifest.params is Some {
            lemma_unit_params_errors(u, u.manifest.params->Some_0@.len());
        }
    }
}

proof fn lemma_all_explained_sum(a: Seq<ErrorView>, b: Seq<ErrorView>)
    requires
        all_explained(a),
        all_explained(b),
    ensures
        all_explained(a + b),
{
    let c = a + b;
    assert forall|i: int| 0 <= i < c.len() implies explained((#[trigger] c[i]).code) by {
        if i < a.len() {
            assert(c[i] == a[i]);
        } else {
            assert(c[i] == b[i - a.len()]);
        }
    }
}

proof fn lemma_widget_codes()
    ensures
        explained("dashboard-widget-fields"@),
        explained("dashboard-unknown-entity"@),
        explained("dashboard-widget-capability"@),
        explained("dashboard-invalid-aspect"@),
        explained("dashboard-unknown-room"@),
        explained("dashboard-unknown-unit"@),
{
    lemma_registered(40, 0);
    lemma_registered(41, 0);
    lemma_registered(42, 0);
    lemma_registered(43, 0);
    lemma_registered(44, 0);
    lemma_registered(45, 0);
}

proof fn lemma_reference_errors(h: House, w: WidgetSpec, subject: Seq<char>)
    ensures
        all_explained(validate::reference_errors(h, w, subject)),
{
    lemma_widget_codes();
    let to_entity = validate::entity_reference_errors(h, w, subject);
    let to_aspect = validate::aspect_reference_errors(w, subject);
    let to_room = validate::room_reference_errors(h, w, subject);
    let to_unit = validate::unit_reference_errors(h, w, subject);
    lemma_all_explained_sum(to_entity, to_aspect);
    lemma_all_explained_sum(to_entity + to_aspect, to_room);
    lemma_all_explained_sum(to_entity + to_aspect + to_room, to_unit);
}

proof fn lemma_widget_errors(h: House, w: WidgetSpec, subject: Seq<char>)
    ensures
        all_explained(validate::widget_errors(h, w, subject)),
{
    lemma_widget_codes();
    lemma_reference_errors(h, w, subject);
}

proof fn lemma_group_errors(h: House, w: WidgetSpec, subject: Seq<char>, n: nat)
    ensures
        all_explained(validate::group_errors(h, w, subject, n)),
    decreases n,
{
    if n > 0 {
        lemma_group_errors(h, w, subject, (n - 1) as nat);
        lemma_codes();
        lemma_widget_errors(h, w.widgets@[n - 1], validate::indexed(subject, n - 1));
    }
}

proof fn lemma_widgets_errors(h: House, v: ViewSpec, n: nat)
    ensures
        all_explained(validate::widgets_errors(h, v, n)),
    decreases n,
{
    if n > 0 {
        lemma_widgets_errors(h, v, (n - 1) as nat);
        let w = v.widgets@[n - 1];
        let subject = validate::indexed(v.name@, n - 1);
        lemma_widget_errors(h, w, subject);
        lemma_group_errors(h, w, subject, w.widgets@.len());
    }
}

proof fn lemma_view_errors(h: House, views: Seq<ViewSpec>, i: int)
    ensures
        all_explained(validate::view_errors(h, views, i)),
{
    lemma_codes();
    lemma_widgets_errors(h, views[i], views[i].widgets@.len());
}

proof fn lemma_views_errors(h: House, views: Seq<ViewSpec>, n: nat)
    ensures
        all_explained(validate::views_errors(h, views, n)),
    decreases n,
{
    if n > 0 {
        lemma_views_errors(h, views, (n - 1) as nat);
        lemma_view_errors(h, views, n - 1);
    }
}

proof fn lemma_retired_errors(h: House, n: nat)
    ensures
        all_explained(validate::retired_errors(h, n)),
    decreases n,
{
    if n > 0 {
        lemma_retired_errors(h, (n - 1) as nat);
        lemma_codes();
    }
}

proof fn lemma_house_errors(h: House)
    ensures
        all_explained(validate::house_errors(h)),
{
    let views = validate::views_in(h);
    lemma_unit_names_errors(h, h.units@.len());
    lemma_entity_names_errors(h, h.entities@.len());
    lemma_zone_names_errors(h, h.zones@.len());
    lemma_view_names_errors(views, views.len());
    lemma_shared_unit_errors(h, validate::all_unit_names(h.units@).len());
    lemma_shared_entity_errors(h, validate::all_entity_names(h.entities@).len());
    lemma_shared_id_errors(h, validate::all_addresses(h.entities@).len());
    lemma_shapes_errors(h, h.units@.len());
    lemma_entities_errors(h, h.entities@.len());
    lemma_zones_errors(h, h.zones@.len());
    lemma_params_errors(h, h.units@.len());
    lemma_retired_errors(h, h.entities@.len());
    lemma_views_errors(h, views, views.len());
}

proof fn lemma_all_capability_errors(h: House, keys: Seq<ExpandedView>, n: nat)
    ensures
        all_explained(grants::all_capability_errors(h, keys, n)),
    decreases n,
{
    if n > 0 {
        lemma_all_capability_errors(h, keys, (n - 1) as nat);
        lemma_codes();
    }
}

proof fn lemma_all_exclusive_errors(h: House, table: Seq<GrantView>, n: nat)
    ensures
        all_explained(grants::all_exclusive_errors(h, table, n)),
    decreases n,
{
    if n > 0 {
        lemma_all_exclusive_errors(h, table, (n - 1) as nat);
        lemma_codes();
    }
}

proof fn lemma_all_arbitrated_errors(h: House, keys: Seq<ExpandedView>, n: nat)
    ensures
        all_explained(grants::all_arbitrated_errors(h, keys, n)),
    decreases n,
{
    if n > 0 {
        lemma_all_arbitrated_errors(h, keys, (n - 1) as nat);
        lemma_codes();
    }
}

proof fn lemma_grant_latch_errors(h: House, keys: Seq<ExpandedView>, g: GrantView, n: nat)
    ensures
        all_explained(grants::grant_latch_errors(h, keys, g, n)),
    decreases n,
{
    if n > 0 {
        lemma_grant_latch_errors(h, keys, g, (n - 1) as nat);
        lemma_codes();
    }
}

proof fn lemma_all_latch_errors(h: House, keys: Seq<ExpandedView>, table: Seq<GrantView>, n: nat)
    ensures
        all_explained(grants::all_latch_errors(h, keys, table, n)),
    decreases n,
{
    if n > 0 {
        lemma_all_latch_errors(h, keys, table, (n - 1) as nat);
        lemma_grant_latch_errors(h, keys, table[n - 1], table[n - 1].entities.len());
    }
}

proof fn lemma_state_errors(h: House, k: ExpandedView, n: nat)
    ensures
        all_explained(grants::state_errors(h, k, n)),
    decreases n,
{
    if n > 0 {
        lemma_state_errors(h, k, (n - 1) as nat);
        lemma_codes();
    }
}

proof fn lemma_all_state_errors(h: House, keys: Seq<ExpandedView>, n: nat)
    ensures
        all_explained(grants::all_state_errors(h, keys, n)),
    decreases n,
{
    if n > 0 {
        lemma_all_state_errors(h, keys, (n - 1) as nat);
        lemma_state_errors(h, keys[n - 1], keys[n - 1].exprs.len());
    }
}

proof fn lemma_all_reserved_errors(h: House, keys: Seq<ExpandedView>, n: nat)
    ensures
        all_explained(grants::all_reserved_errors(h, keys, n)),
    decreases n,
{
    if n > 0 {
        lemma_all_reserved_errors(h, keys, (n - 1) as nat);
        lemma_codes();
    }
}

proof fn lemma_resolve_errors(h: House, keys: Seq<ExpandedView>)
    ensures
        all_explained(grants::resolve_errors(h, keys)),
{
    lemma_codes();
    let table = grants::grant_table(h, keys);
    lemma_all_capability_errors(h, keys, keys.len());
    lemma_all_exclusive_errors(h, table, h.entities@.len());
    lemma_all_arbitrated_errors(h, keys, h.entities@.len());
    lemma_all_latch_errors(h, keys, table, table.len());
    lemma_all_state_errors(h, keys, keys.len());
    lemma_all_reserved_errors(h, keys, keys.len());
}

proof fn lemma_inputs_errors(h: House, keys: Seq<ExpandedView>, e: LoadedEntity, n: nat)
    ensures
        all_explained(grants::inputs_errors(h, keys, e, n)),
    decreases n,
{
    if n > 0 {
        lemma_inputs_errors(h, keys, e, (n - 1) as nat);
        lemma_codes();
    }
}

proof fn lemma_entity_feed_errors(h: House, keys: Seq<ExpandedView>, e: LoadedEntity)
    ensures
        all_explained(grants::entity_feed_errors(h, keys, e)),
{
    lemma_codes();
    if e.file.inputs is Some {
        lemma_inputs_errors(h, keys, e, e.file.inputs->Some_0@.len());
    }
}

proof fn lemma_house_feed_errors(h: House, keys: Seq<ExpandedView>, n: nat)
    ensures
        all_explained(grants::house_feed_errors(h, keys, n)),
    decreases n,
{
    if n > 0 {
        lemma_house_feed_errors(h, keys, (n - 1) as nat);
        lemma_entity_feed_errors(h, keys, h.entities@[n - 1]);
    }
}

/// Whatever the pipeline finds wrong with a house, the code it reports has an
/// explanation.
pub proof fn law_every_code_is_explained(h: House)
    ensures
        all_explained(crate::check_errors(h)),
{
    let keys = expand::house_keys(h, h.units@.len());
    lemma_house_errors(h);
    lemma_house_key_errors(h, h.units@.len());
    lemma_resolve_errors(h, keys);
    lemma_house_feed_errors(h, keys, h.entities@.len());
}

proof fn lemma_load_unit_errors(files: Seq<ReadFile<UnitManifest>>, n: nat)
    ensures
        all_explained(repo::units_errors(files, n)),
    decreases n,
{
    if n > 0 {
        lemma_load_unit_errors(files, (n - 1) as nat);
        lemma_codes();
    }
}

proof fn lemma_load_entity_errors(dir: Seq<char>, files: Seq<ReadFile<EntityFile>>, n: nat)
    ensures
        all_explained(repo::entities_errors(dir, files, n)),
    decreases n,
{
    if n > 0 {
        lemma_load_entity_errors(dir, files, (n - 1) as nat);
        lemma_codes();
    }
}

proof fn lemma_load_dir_errors(
    dirs: Seq<(Seq<char>, Seq<char>)>,
    files: Seq<Option<Vec<ReadFile<EntityFile>>>>,
    n: nat,
)
    ensures
        all_explained(repo::all_dir_errors(dirs, files, n)),
    decreases n,
{
    if n > 0 {
        lemma_load_dir_errors(dirs, files, (n - 1) as nat);
        lemma_codes();
        if files[n - 1] is Some {
            let v = files[n - 1]->Some_0@;
            lemma_load_entity_errors(dirs[n - 1].1, v, v.len());
        }
    }
}

/// Whatever is wrong with the files of a house, the code that loading them
/// reports has an explanation.
pub proof fn law_every_load_code_is_explained(files: HouseFiles)
    ensures
        all_explained(repo::load_errors(files)),
{
    lemma_codes();
    if files.units is Some {
        let v = files.units->Some_0@;
        let dirs = repo::house_dirs(files);
        lemma_load_unit_errors(v, v.len());
        lemma_load_dir_errors(dirs, files.entities@, dirs.len());
    }
}

/// The place of a registered code, read off its length and two of its letters.
spec fn place_of(code: Seq<char>) -> int {
    let n = code.len() as int;
    let last = code[n - 1];
    let inner = code[n - 9];
    if n == 11 && last == 'r' && inner == 'r' {
        0
    } else if n == 18 && last == 'a' && inner == 'e' {
        1
    } else if n == 17 && last == 'r' && inner == 'u' {
        2
    } else if n == 20 && last == 'r' && inner == 'i' {
        3
    } else if n == 12 && last == 'e' && inner == 'a' {
        4
    } else if n == 18 && last == 'e' && inner == 'u' {
        5
    } else if n == 18 && last == 'e' && inner == 'r' {
        6
    } else if n == 18 && last == 'e' && inner == 'z' {
        7
    } else if n == 19 && last == 'n' && inner == 'c' {
        8
    } else if n == 16 && last == 'm' && inner == 'e' {
        9
    } else if n == 17 && last == 'm' && inner == 'n' {
        10
    } else if n == 19 && last == 'e' && inner == 'u' {
        11
    } else if n == 21 && last == 'e' && inner == 't' {
        12
    } else if n == 19 && last == 'd' && inner == 'e' {
        13
    } else if n == 16 && last == 't' && inner == '-' {
        14
    } else if n == 18 && last == 'y' && inner == 'a' {
        15
    } else if n == 18 && last == 't' && inner == 'w' {
        16
    } else if n == 14 && last == 'h' && inner == '-' {
        17
    } else if n == 25 && last == 'd' && inner == 'r' {
        18
    } else if n == 24 && last == 'd' && inner == 'c' {
        19
    } else if n == 11 && last == 'e' && inner == 'a' {
        20
    } else if n == 15 && last == 't' && inner == 'd' {
        21
    } else if n == 20 && last == 't' && inner == 'o' {
        22
    } else if n == 18 && last == 'a' && inner == 'd' {
        23
    } else if n == 29 && last == 't' && inner == 'd' {
        24
    } else if n == 26 && last == 'y' && inner == 'a' {
        25
    } else if n == 24 && last == 't' && inner == '-' {
        26
    } else if n == 20 && last == 'd' && inner == 'u' {
        27
    } else if n == 18 && last == 'd' && inner == 'n' {
        28
    } else if n == 20 && last == 'y' && inner == 'w' {
        29
    } else if n == 24 && last == 't' && inner == 'e' {
        30
    } else if n == 21 && last == 'd' && inner == 'h' {
        31
    } else if n == 19 && last == 'd' && inner == '-' {
        32
    } else if n == 18 && last == 'd' && inner == '-' {
        33
    } else if n == 22 && last == 'h' && inner == 's' {
        34
    } else if n == 24 && last == 'd' && inner == 'd' {
        35
    } else if n == 23 && last == 'w' && inner == 'r' {
        36
    } else if n == 24 && last == 'w' && inner == 'c' {
        37
    } else if n == 20 && last == 'e' && inner == 'i' {
        38
    } else if n == 22 && last == 'p' && inner == 't' {
        39
    } else if n == 23 && last == 's' && inner == 'e' {
        40
    } else if n == 24 && last == 'y' && inner == 'w' {
        41
    } else if n == 27 && last == 'y' && inner == 'a' {
        42
    } else if n == 24 && last == 't' && inner == 'i' {
        43
    } else if n == 22 && last == 'm' && inner == 'n' {
        44
    } else if n == 22 && last == 't' && inner == 'n' {
        45
    } else {
        46
    }
}

proof fn lemma_place_of(i: int)
    requires
        0 <= i < CODES@.len(),
    ensures
        place_of(CODES@[i].0@) == i,
{
    if i == 0 {
        reveal_strlit("parse-error");
    } else if i == 1 {
        reveal_strlit("unsupported-schema");
    } else if i == 2 {
        reveal_strlit("missing-units-dir");
    } else if i == 3 {
        reveal_strlit("missing-entities-dir");
    } else if i == 4 {
        reveal_strlit("invalid-name");
    } else if i == 5 {
        reveal_strlit("reserved-unit-name");
    } else if i == 6 {
        reveal_strlit("reserved-room-name");
    } else if i == 7 {
        reveal_strlit("reserved-zone-name");
    } else if i == 8 {
        reveal_strlit("zone-room-collision");
    } else if i == 9 {
        reveal_strlit("zone-pseudo-room");
    } else if i == 10 {
        reveal_strlit("zone-unknown-room");
    } else if i == 11 {
        reveal_strlit("duplicate-unit-name");
    } else if i == 12 {
        reveal_strlit("duplicate-entity-name");
    } else if i == 13 {
        reveal_strlit("duplicate-entity-id");
    } else if i == 14 {
        reveal_strlit("invalid-manifest");
    } else if i == 15 {
        reveal_strlit("unknown-capability");
    } else if i == 16 {
        reveal_strlit("missing-owner-unit");
    } else if i == 17 {
        reveal_strlit("owner-mismatch");
    } else if i == 18 {
        reveal_strlit("virtual-entity-arbitrated");
    } else if i == 19 {
        reveal_strlit("virtual-entity-commanded");
    } else if i == 20 {
        reveal_strlit("grant-cycle");
    } else if i == 21 {
        reveal_strlit("invalid-default");
    } else if i == 22 {
        reveal_strlit("malformed-constraint");
    } else if i == 23 {
        reveal_strlit("key-outside-schema");
    } else if i == 24 {
        reveal_strlit("template-outside-binding-unit");
    } else if i == 25 {
        reveal_strlit("publish-missing-capability");
    } else if i == 26 {
        reveal_strlit("exclusive-write-conflict");
    } else if i == 27 {
        reveal_strlit("arbitrated-uncovered");
    } else if i == 28 {
        reveal_strlit("virtual-entity-fed");
    } else if i == 29 {
        reveal_strlit("input-unknown-entity");
    } else if i == 30 {
        reveal_strlit("input-unpublished-aspect");
    } else if i == 31 {
        reveal_strlit("state-publish-unbound");
    } else if i == 32 {
        reveal_strlit("write-mode-required");
    } else if i == 33 {
        reveal_strlit("entity-id-required");
    } else if i == 34 {
        reveal_strlit("reserved-class-publish");
    } else if i == 35 {
        reveal_strlit("entity-dashboard-retired");
    } else if i == 36 {
        reveal_strlit("dashboard-reserved-view");
    } else if i == 37 {
        reveal_strlit("dashboard-duplicate-view");
    } else if i == 38 {
        reveal_strlit("dashboard-view-shape");
    } else if i == 39 {
        reveal_strlit("dashboard-nested-group");
    } else if i == 40 {
        reveal_strlit("dashboard-widget-fields");
    } else if i == 41 {
        reveal_strlit("dashboard-unknown-entity");
    } else if i == 42 {
        reveal_strlit("dashboard-widget-capability");
    } else if i == 43 {
        reveal_strlit("dashboard-invalid-aspect");
    } else if i == 44 {
        reveal_strlit("dashboard-unknown-room");
    } else if i == 45 {
        reveal_strlit("dashboard-unknown-unit");
    }
}

proof fn lemma_explained_from(code: Seq<char>, from: int)
    requires
        0 <= from,
        error::explained_from(code, from) is Some,
    ensures
        exists|i: int| from <= i < CODES@.len() && (#[trigger] CODES@[i]).0@ == code,
    decreases CODES@.len() - from,
{
    if from < CODES@.len() && CODES@[from].0@ != code {
        lemma_explained_from(code, from + 1);
    }
}

/// A code has an explanation exactly where it is registered, and it is the
/// one that stands beside it.
pub proof fn law_explained_means_registered(code: Seq<char>)
    ensures
        explained(code) <==> exists|i: int|
            0 <= i < CODES@.len() && (#[trigger] CODES@[i]).0@ == code,
        forall|i: int|
            0 <= i < CODES@.len() && (#[trigger] CODES@[i]).0@ == code ==> error::explanation(code)
                == Some(CODES@[i].1@),
{
    if explained(code) {
        lemma_explained_from(code, 0);
    }
    assert forall|i: int| 0 <= i < CODES@.len() && (#[trigger] CODES@[i]).0@
        == code implies error::explanation(code) == Some(CODES@[i].1@) by {
        lemma_found_beside(i, 0);
    }
}

proof fn lemma_found_beside(i: int, from: int)
    requires
        0 <= from <= i < CODES@.len(),
    ensures
        error::explained_from(CODES@[i].0@, from) == Some(CODES@[i].1@),
    decreases i - from,
{
    if CODES@[from].0@ == CODES@[i].0@ {
        law_no_code_is_registered_twice(from, i);
    } else {
        lemma_found_beside(i, from + 1);
    }
}

/// No code is registered twice.
pub proof fn law_no_code_is_registered_twice(i: int, j: int)
    requires
        0 <= i < CODES@.len(),
        0 <= j < CODES@.len(),
        CODES@[i].0@ == CODES@[j].0@,
    ensures
        i == j,
{
    lemma_place_of(i);
    lemma_place_of(j);
}

} // verus!
