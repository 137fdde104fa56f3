//! What a house is made of its files: which are read, what they become, and
//! when there is nothing to say about them.

use crate::manifest::EntityFile;
use crate::manifest::UnitManifest;
use crate::order;
use crate::repo;
use crate::repo::EntityRecord;
use crate::repo::HouseFiles;
use crate::repo::ReadFile;
use crate::scan;
use crate::text;
use vstd::prelude::*;

verus! {

/// The files of a directory that count are those whose name ends in
/// `.toml`, in the order of their names.
pub proof fn law_toml_files_count(names: Seq<Seq<char>>, name: Seq<char>)
    ensures
        ({
            let files = order::sorted::<String>(repo::toml_names(names, names.len()));
            &&& files.contains(name) <==> names.contains(name) && scan::suffixed(name, ".toml"@)
            &&& forall|i: int, j: int|
                0 <= i < j < files.len() ==> !text::lex_lt(#[trigger] files[j], #[trigger] files[i])
        }),
{
    let kept = repo::toml_names(names, names.len());
    let files = order::sorted::<String>(kept);
    order::lemma_sorted::<String>(kept);
    vstd::seq_lib::to_multiset_contains(kept, name);
    vstd::seq_lib::to_multiset_contains(files, name);
    let f = |i: int| text::only_if(scan::suffixed(names[i], ".toml"@), names[i]);
    if kept.contains(name) {
        let p = kept.index_of(name);
        let i = text::lemma_in_each(names.len(), f, p);
        assert(f(i).contains(kept[p]));
        assert(names[i] == name);
    }
    if names.contains(name) && scan::suffixed(name, ".toml"@) {
        let i = names.index_of(name);
        assert(f(i)[0] == name);
        assert(f(i).contains(name));
        text::lemma_each_has(names.len(), f, i, name);
    }
    assert forall|i: int, j: int| 0 <= i < j < files.len() implies !text::lex_lt(
        #[trigger] files[j],
        #[trigger] files[i],
    ) by {
        assert(!<String as order::Ranked>::goes_before(files[j], files[i]));
    }
}

/// An entity has the name of its file without the ending.
pub proof fn law_entities_are_named_by_their_files(name: Seq<char>)
    requires
        !scan::suffixed(name, ".toml"@),
    ensures
        repo::stem(name + ".toml"@) == name,
{
    reveal_strlit(".toml");
    let p = ".toml"@;
    assert(p.len() == 5);
    let s = name + p;
    assert(s.skip(s.len() - p.len()) =~= p);
    assert(s.take(s.len() - p.len()) =~= name);
    reveal_with_fuel(scan::without_suffixes, 2);
}

/// File `j` of directory `i` could be read, and the record is what it says:
/// its entity, bound by the unit that the directory belongs to.
pub open spec fn record_of(
    dirs: Seq<(Seq<char>, Seq<char>)>,
    files: Seq<Option<Vec<ReadFile<EntityFile>>>>,
    i: int,
    j: int,
    r: EntityRecord,
) -> bool {
    &&& 0 <= i < dirs.len()
    &&& files[i] is Some
    &&& 0 <= j < files[i]->Some_0@.len()
    &&& files[i]->Some_0@[j].content == Ok::<EntityFile, String>(r.file)
    &&& r.name == repo::stem(files[i]->Some_0@[j].name@)
    &&& r.path == scan::without_trailing(dirs[i].1, '/') + "/"@ + files[i]->Some_0@[j].name@
    &&& r.owner == dirs[i].0
}

/// The entities of a house are those of the files that could be read: one
/// for each, and no other.
pub proof fn law_readable_entities_are_loaded(
    dirs: Seq<(Seq<char>, Seq<char>)>,
    files: Seq<Option<Vec<ReadFile<EntityFile>>>>,
    r: EntityRecord,
)
    ensures
        repo::all_parsed_entities(dirs, files, dirs.len()).contains(r) <==> exists|i: int, j: int|
            #[trigger] record_of(dirs, files, i, j, r),
{
    let all = repo::all_parsed_entities(dirs, files, dirs.len());
    let f = |i: int|
        match files[i] {
            Some(v) => repo::parsed_entities(dirs[i].0, dirs[i].1, v@, v@.len()),
            None => Seq::empty(),
        };
    if all.contains(r) {
        let p = all.index_of(r);
        let i = text::lemma_in_each(dirs.len(), f, p);
        assert(f(i).contains(all[p]));
        let v = files[i]->Some_0@;
        let part = repo::parsed_entities(dirs[i].0, dirs[i].1, v, v.len());
        let g = |j: int|
            match v[j].content {
                Ok(e) => seq![
                    EntityRecord {
                        name: repo::stem(v[j].name@),
                        file: e,
                        path: repo::entity_path(dirs[i].1, v[j].name@),
                        owner: dirs[i].0,
                    },
                ],
                Err(_) => Seq::empty(),
            };
        lemma_parsed_is_each(dirs[i].0, dirs[i].1, v, v.len(), g);
        let q = part.index_of(r);
        let j = text::lemma_in_each(v.len(), g, q);
        assert(g(j).contains(part[q]));
        assert(record_of(dirs, files, i, j, r));
    }
    if exists|i: int, j: int| #[trigger] record_of(dirs, files, i, j, r) {
        let (i, j) = choose|i: int, j: int| #[trigger] record_of(dirs, files, i, j, r);
        let v = files[i]->Some_0@;
        let g = |j: int|
            match v[j].content {
                Ok(e) => seq![
                    EntityRecord {
                        name: repo::stem(v[j].name@),
                        file: e,
                        path: repo::entity_path(dirs[i].1, v[j].name@),
                        owner: dirs[i].0,
                    },
                ],
                Err(_) => Seq::empty(),
            };
        lemma_parsed_is_each(dirs[i].0, dirs[i].1, v, v.len(), g);
        assert(g(j)[0] == r);
        assert(g(j).contains(r));
        text::lemma_each_has(v.len(), g, j, r);
        assert(f(i).contains(r));
        text::lemma_each_has(dirs.len(), f, i, r);
    }
}

proof fn lemma_parsed_is_each(
    owner: Seq<char>,
    dir: Seq<char>,
    v: Seq<ReadFile<EntityFile>>,
    n: nat,
    g: spec_fn(int) -> Seq<EntityRecord>,
)
    requires
        forall|j: int| #[trigger]
            g(j) == match v[j].content {
                Ok(e) => seq![
                    EntityRecord {
                        name: repo::stem(v[j].name@),
                        file: e,
                        path: repo::entity_path(dir, v[j].name@),
                        owner,
                    },
                ],
                Err(_) => Seq::empty(),
            },
    ensures
        repo::parsed_entities(owner, dir, v, n) == text::each(n, g),
    decreases n,
{
    if n > 0 {
        lemma_parsed_is_each(owner, dir, v, (n - 1) as nat, g);
    }
}

/// The manifest could be read and is of the version that is understood.
pub open spec fn unit_file_in_order(file: ReadFile<UnitManifest>) -> bool {
    file.content matches Ok(m) && m.schema == 1
}

/// The entity file could be read and is of the version that is understood.
pub open spec fn entity_file_in_order(file: ReadFile<EntityFile>) -> bool {
    file.content matches Ok(e) && e.schema == 1
}

/// The directory is there, and its files are in order.
pub open spec fn dir_in_order(files: Option<Vec<ReadFile<EntityFile>>>) -> bool {
    files matches Some(v) && forall|j: int|
        0 <= j < v@.len() ==> entity_file_in_order(#[trigger] v@[j])
}

/// Nothing is said about the files of a house exactly where there are
/// manifests, all of them in order, every directory of entities is, and the
/// zones and the dashboard are where they are there.
pub proof fn law_files_are_in_order(files: HouseFiles)
    ensures
        repo::load_errors(files).len() == 0 <==> {
            &&& files.zones matches Some(zones) ==> (zones matches Ok(z) && z.schema == 1)
            &&& files.dashboard matches Some(dashboard) ==> dashboard is Ok
            &&& files.units is Some
            &&& forall|i: int|
                0 <= i < files.units->Some_0@.len() ==> unit_file_in_order(
                    #[trigger] files.units->Some_0@[i],
                )
            &&& forall|i: int|
                0 <= i < repo::house_dirs(files).len() ==> dir_in_order(
                    #[trigger] files.entities@[i],
                )
        },
{
    if files.units is Some {
        let v = files.units->Some_0@;
        let f = |i: int| repo::unit_errors(v[i]);
        text::lemma_each_empty(v.len(), f);
        assert forall|i: int| 0 <= i < v.len() implies ((#[trigger] f(i)).len() == 0
            <==> unit_file_in_order(v[i])) by {}
        let dirs = repo::house_dirs(files);
        let g = |i: int| repo::dir_errors(dirs[i].0, dirs[i].1, files.entities@[i]);
        text::lemma_each_empty(dirs.len(), g);
        assert forall|i: int| 0 <= i < dirs.len() implies ((#[trigger] g(i)).len() == 0
            <==> dir_in_order(files.entities@[i])) by {
            lemma_dir(dirs[i].0, dirs[i].1, files.entities@[i]);
        }
        if repo::units_errors(v, v.len()).len() == 0 {
            assert forall|i: int| 0 <= i < v.len() implies unit_file_in_order(#[trigger] v[i]) by {
                assert(f(i).len() == 0);
            }
        }
        if repo::all_dir_errors(dirs, files.entities@, dirs.len()).len() == 0 {
            assert forall|i: int| 0 <= i < dirs.len() implies dir_in_order(
                #[trigger] files.entities@[i],
            ) by {
                assert(g(i).len() == 0);
            }
        }
    }
}

proof fn lemma_dir(owner: Seq<char>, dir: Seq<char>, files: Option<Vec<ReadFile<EntityFile>>>)
    ensures
        repo::dir_errors(owner, dir, files).len() == 0 <==> dir_in_order(files),
{
    if files is Some {
        let v = files->Some_0@;
        let f = |j: int| repo::entity_errors(dir, v[j]);
        text::lemma_each_empty(v.len(), f);
        assert forall|j: int| 0 <= j < v.len() implies ((#[trigger] f(j)).len() == 0
            <==> entity_file_in_order(v[j])) by {}
        if repo::entities_errors(dir, v, v.len()).len() == 0 {
            assert forall|j: int| 0 <= j < v.len() implies entity_file_in_order(#[trigger] v[j]) by {
                assert(f(j).len() == 0);
            }
        }
    }
}

} // verus!
