use homeostat::grants::Grant;
use homeostat::manifest::Priority;
use homeostat::plan::{World, WorldUnit};
use homeostat::world::{meta_key, MetaKey};

#[test]
fn meta_keys_tell_what_they_hold() {
    assert_eq!(meta_key("home/meta/system/grants"), MetaKey::Grants);
    assert_eq!(meta_key("home/meta/system/applied_commit"), MetaKey::AppliedCommit);
    assert_eq!(
        meta_key("home/meta/clock/files_hash"),
        MetaKey::Unit { unit: "clock".to_string(), field: "files_hash".to_string() }
    );
    assert_eq!(meta_key("home/meta/clock"), MetaKey::Other);
    assert_eq!(meta_key("home/config/clock/manifest"), MetaKey::Other);
}

#[test]
fn a_world_is_put_together_from_replies() {
    let mut w = World::live("tcp/127.0.0.1:7447");
    assert!(w.live);
    assert_eq!(w.label, "tcp/127.0.0.1:7447");
    w.on_meta("home/meta/clock/manifest", b"schema = 1\n".to_vec());
    w.on_meta("home/meta/clock/manifest_hash", b"aa".to_vec());
    w.on_meta("home/meta/clock/files_hash", b"bb".to_vec());
    w.on_meta("home/meta/clock/log", b"ignored".to_vec());
    w.on_meta("home/meta/system/applied_commit", vec![b'c', 0xff]);
    let clock = w.units.get("clock").unwrap();
    assert_eq!(clock.manifest, b"schema = 1\n".to_vec());
    assert_eq!(clock.manifest_hash, "aa");
    assert_eq!(clock.files_hash, "bb");
    assert_eq!(w.applied_commit, Some("c\u{fffd}".to_string()));
    assert_eq!(w.units.len(), 1);

    w.on_config("home/config/clock/tick", b"5");
    w.on_config("home/config/clock/bad", b"{");
    w.on_config("home/config/clock", b"1");
    assert_eq!(w.params.get_pair("clock", "tick").unwrap().to_string(), "5");
    assert_eq!(w.params.len(), 1);
}

#[test]
fn a_supervisor_keeps_its_world_current() {
    let mut w = World::live("x");
    w.record_unit(
        "clock".to_string(),
        WorldUnit {
            manifest: vec![],
            manifest_hash: "m".to_string(),
            files_hash: "f".to_string(),
        },
    );
    assert_eq!(w.units.get("clock").unwrap().manifest_hash, "m");
    let grant = Grant {
        unit: "a".to_string(),
        publish: "p".to_string(),
        capability: "light".to_string(),
        priority: Priority::Automation,
        entities: vec![],
    };
    w.record_applied(vec![grant.copy()], Some("abc".to_string()));
    w.record_applied(vec![grant.copy()], None);
    assert_eq!(w.applied_commit, Some("abc".to_string()));
    assert_eq!(w.grants, vec![grant]);
    w.forget_unit("clock");
    assert!(w.units.is_empty());
}
