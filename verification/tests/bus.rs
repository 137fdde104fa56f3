use homeostat::bus::{
    config_key, connect_config, files_hash_key, health_key, listen_config, liveliness_key, log_key,
    manifest_hash_key, manifest_key, HealthStatus,
};

fn pairs(settings: Vec<(String, String)>) -> Vec<String> {
    settings.iter().map(|(path, value)| format!("{path} {value}")).collect()
}

#[test]
fn the_supervisor_listens_without_scouting() {
    assert_eq!(
        pairs(listen_config("tcp/127.0.0.1:7447")),
        [
            "mode \"router\"",
            "scouting/multicast/enabled false",
            "scouting/gossip/enabled false",
            "listen/endpoints [\"tcp/127.0.0.1:7447\"]",
        ]
    );
}

#[test]
fn everyone_else_connects() {
    assert_eq!(
        pairs(connect_config("tcp/h:1")),
        [
            "mode \"client\"",
            "scouting/multicast/enabled false",
            "scouting/gossip/enabled false",
            "connect/endpoints [\"tcp/h:1\"]",
        ]
    );
}

#[test]
fn keys_of_a_unit() {
    assert_eq!(health_key("u"), "home/health/u");
    assert_eq!(liveliness_key("u"), "home/health/u/alive");
    assert_eq!(manifest_hash_key("u"), "home/meta/u/manifest_hash");
    assert_eq!(files_hash_key("u"), "home/meta/u/files_hash");
    assert_eq!(manifest_key("u"), "home/meta/u/manifest");
    assert_eq!(log_key("u"), "home/meta/u/log");
    assert_eq!(config_key("u", "p"), "home/config/u/p");
    assert_eq!(HealthStatus::Backoff.as_str(), "backoff");
}
