use homeostat::keyspace::{is_reserved_word, KeyExpr, Segment};

fn expr(s: &str) -> KeyExpr {
    KeyExpr::parse(s).unwrap()
}

#[test]
fn parse_roundtrip() {
    for s in [
        "home/state/kitchen/lamp/on",
        "home/state/*/that_lamp/**",
        "home/cmd/{room}/{entity}/**",
        "home/arbiter/{room}/{entity}/**",
    ] {
        assert_eq!(expr(s).to_string(), s);
    }
}

#[test]
fn schema_accepts_design_examples() {
    for s in [
        "home/state/downstairs/**/presence",
        "home/clock/minute",
        "home/cmd/downstairs/**/light",
        "home/state/**",
        "home/state/{room}/{entity}/**",
        "home/arbiter/{room}/{entity}/**",
        "home/arbiter/hallway/front_door_lock/lock",
    ] {
        expr(s).check_schema(s).unwrap();
    }
}

#[test]
fn schema_rejects() {
    assert!(expr("house/state/a/b/c").check_schema("house/state/a/b/c").is_err());
    assert!(expr("home/telemetry/a/b/c").check_schema("home/telemetry/a/b/c").is_err());
    assert!(expr("home/state/kitchen").check_schema("home/state/kitchen").is_err());
    assert!(expr("home/arbiter/hallway").check_schema("home/arbiter/hallway").is_err());
}

#[test]
fn forecast_is_addressed_like_state_plus_its_source() {
    // The series it extends, plus WHO says so: room/entity/aspect and
    // then the source. It keeps state's room slot, and `forecast` is a
    // reserved word so no room can be called one.
    let s = "home/forecast/global/spot_price/price/nordpool";
    expr(s).check_schema(s).unwrap();
    assert_eq!(expr(s).to_string(), s);
    assert_eq!(expr(s).room_slot(), Some(&Segment::Literal("global".to_string())));
    expr("home/forecast/{room}/{entity}/**")
        .check_schema("home/forecast/{room}/{entity}/**")
        .unwrap();
    assert!(is_reserved_word("forecast"));
    // Short of an aspect it is refused, as state is.
    assert!(expr("home/forecast/global").check_schema("home/forecast/global").is_err());
    // And short of a SOURCE it is refused, which state is not: every
    // forecast has an author, and leaving the slot optional would mean
    // no single expression matched every opinion about one series.
    let bare = "home/forecast/global/spot_price/price";
    assert!(expr(bare).check_schema(bare).is_err());
    let state = "home/state/global/spot_price/price";
    expr(state).check_schema(state).unwrap();
}

#[test]
fn arbiter_room_slot_and_reserved_word() {
    assert_eq!(
        expr("home/arbiter/hallway/front_door_lock/lock").room_slot(),
        Some(&Segment::Literal("hallway".to_string()))
    );
    assert!(is_reserved_word("arbiter"));
}

#[test]
fn prefix_matching() {
    let prefix = &["home", "cmd", "kitchen", "ceiling"];
    assert!(expr("home/cmd/kitchen/**/light").matches_prefix(prefix));
    assert!(expr("home/cmd/kitchen/ceiling/light").matches_prefix(prefix));
    assert!(expr("home/cmd/*/ceiling/**").matches_prefix(prefix));
    assert!(expr("home/cmd/**").matches_prefix(prefix));
    assert!(!expr("home/cmd/hallway/**/light").matches_prefix(prefix));
    assert!(!expr("home/cmd/kitchen/other/light").matches_prefix(prefix));
    assert!(!expr("home/state/kitchen/ceiling/on").matches_prefix(prefix));
}

#[test]
fn refused_keys_say_why() {
    assert_eq!(KeyExpr::parse("").unwrap_err(), "key is empty");
    assert_eq!(KeyExpr::parse("home//x").unwrap_err(), "\"home//x\" has an empty segment");
    assert_eq!(
        expr("house/x/y").check_schema("house/x/y").unwrap_err(),
        "\"house/x/y\" does not start with \"home/\""
    );
    assert_eq!(
        expr("home/*/y").check_schema("home/*/y").unwrap_err(),
        "\"home/*/y\" needs a literal class segment after \"home/\""
    );
    assert_eq!(
        expr("home/news/y").check_schema("home/news/y").unwrap_err(),
        "\"home/news/y\" has unknown class \"news\""
    );
    assert_eq!(
        expr("home/clock").check_schema("home/clock").unwrap_err(),
        "\"home/clock\" needs a segment after the class"
    );
    assert_eq!(
        expr("home/cmd/a/b").check_schema("home/cmd/a/b").unwrap_err(),
        "\"home/cmd/a/b\" needs room/entity/aspect segments after the class"
    );
    assert_eq!(
        expr("home/forecast/a/b/c").check_schema("home/forecast/a/b/c").unwrap_err(),
        "\"home/forecast/a/b/c\" needs room/entity/aspect/source segments after the class"
    );
}

#[test]
fn templates_and_rooms_are_filled_in() {
    let key = expr("home/cmd/{room}/{entity}/**");
    assert!(key.has_template());
    assert_eq!(key.class(), Some("cmd"));
    assert_eq!(key.substitute("den", "lamp"), expr("home/cmd/den/lamp/**"));
    assert!(!expr("home/cmd/den/lamp/on").has_template());
    assert_eq!(expr("home/cmd/den/lamp/on").with_room("hall"), expr("home/cmd/hall/lamp/on"));
    assert_eq!(expr("home/clock/minute").room_slot(), None);
    assert!(is_reserved_word("home") && is_reserved_word("global") && !is_reserved_word("den"));
}

#[test]
fn a_prefix_is_covered_where_some_longer_key_matches() {
    // A literal expression longer than the prefix still covers it, one that
    // ends inside it does not, and `**` may stand for nothing at all.
    assert!(expr("home/cmd/den/lamp/on/extra").matches_prefix(&["home", "cmd"]));
    assert!(!expr("home/cmd").matches_prefix(&["home", "cmd", "den"]));
    assert!(expr("home/**/cmd/den").matches_prefix(&["home", "cmd", "den"]));
    assert!(expr("home/cmd").matches_prefix(&[]));
}
