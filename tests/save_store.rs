use mc_manager::errors::ApiError;
use mc_manager::instances::InstanceStatus;
use mc_manager::properties::{PropAccess, PropDef, PropType, PropValue};
use mc_manager::propfile::{read_properties, read_property};
use mc_manager::instances::Registry;
use mc_manager::save::{access, access_at, create, generate_properties, load, modify, port_of, saves_body, saves_json, schema};
use mc_manager::schema::{create_properties, properties};

fn tiny_schema() -> Vec<PropDef> {
    vec![
        PropDef { access: PropAccess::Write, ty: PropType::Bool(true), name: "pvp", label: "PvP", desc: "Fight" },
        PropDef { access: PropAccess::Write, ty: PropType::String("a=b"), name: "motd", label: "Motd", desc: "Text" },
        PropDef { access: PropAccess::Write, ty: PropType::Uint(25565, 1, 65535), name: "server-port", label: "Port", desc: "P" },
        PropDef { access: PropAccess::Read, ty: PropType::String(""), name: "mc-manager-server-version", label: "V", desc: "v" },
        PropDef { access: PropAccess::Read, ty: PropType::Datetime, name: "mc-manager-create-time", label: "T", desc: "t" },
        PropDef { access: PropAccess::Hidden, ty: PropType::Bool(false), name: "secret", label: "S", desc: "s" },
        PropDef {
            access: PropAccess::Write,
            ty: PropType::StrEnum(1, vec![("easy", "Fácil"), ("hard", "Difícil")]),
            name: "difficulty",
            label: "D",
            desc: "d",
        },
        PropDef { access: PropAccess::Write, ty: PropType::Int(-1, -10, 10), name: "offset", label: "O", desc: "o" },
        PropDef { access: PropAccess::Write, ty: PropType::IntEnum(0, vec!["x", "y"]), name: "mode", label: "M", desc: "m" },
    ]
}

#[test]
fn generate_properties_uses_version_overrides_and_defaults() {
    let values = vec![("server-port".to_string(), PropValue::Uint(25570))];
    let text = generate_properties(&tiny_schema(), "1.20.1", &values, "2024-01-02 03:04:05");
    assert_eq!(
        text,
        "pvp=true\r\nmotd=a\\=b\r\nserver-port=25570\r\nmc-manager-server-version=1.20.1\r\n\
         mc-manager-create-time=2024-01-02 03:04:05\r\ndifficulty=hard\r\noffset=-1\r\nmode=0\r\n"
    );
}

#[test]
fn generate_properties_ignores_override_of_read_only() {
    let values = vec![("mc-manager-create-time".to_string(), PropValue::String("x".to_string()))];
    let text = generate_properties(&tiny_schema(), "v", &values, "NOW");
    assert!(text.contains("mc-manager-create-time=NOW\r\n"));
}

#[test]
fn load_builds_save_json() {
    let content = "pvp=false\r\nmotd=he said \"hi\"\r\nserver-port=25570\r\nsecret=true\r\ndifficulty=easy\r\n";
    let json = load(&tiny_schema(), "w1", InstanceStatus::Online, content);
    assert_eq!(
        json,
        "{\"name\":\"w1\",\"status\":\"online\",\"pvp\":false,\"motd\":\"he said \\\"hi\\\"\",\"server-port\":25570,\
         \"mc-manager-server-version\":null,\"mc-manager-create-time\":null,\"difficulty\":\"easy\",\"offset\":null,\"mode\":null}"
    );
}

#[test]
fn load_reports_every_status() {
    for (s, w) in [
        (InstanceStatus::Cold, "cold"),
        (InstanceStatus::Loading, "loading"),
        (InstanceStatus::Online, "online"),
        (InstanceStatus::Shutdown, "shutdown"),
        (InstanceStatus::Offline, "offline"),
    ] {
        let json = load(&tiny_schema(), "abc", s, "");
        assert!(json.starts_with(&format!("{{\"name\":\"abc\",\"status\":\"{}\"", w)));
    }
}

#[test]
fn schema_json_for_small_schema() {
    let defs = vec![
        PropDef { access: PropAccess::Write, ty: PropType::Bool(true), name: "pvp", label: "PvP", desc: "Fight" },
        PropDef { access: PropAccess::Hidden, ty: PropType::Bool(true), name: "hidden", label: "H", desc: "h" },
        PropDef { access: PropAccess::Read, ty: PropType::Int(-1, -10, 10), name: "offset", label: "O", desc: "o" },
        PropDef { access: PropAccess::Write, ty: PropType::Uint(3, 1, 9), name: "count", label: "C", desc: "c" },
        PropDef { access: PropAccess::Write, ty: PropType::Datetime, name: "when", label: "W", desc: "w" },
        PropDef { access: PropAccess::Write, ty: PropType::String("s"), name: "motd", label: "M", desc: "m" },
        PropDef { access: PropAccess::Write, ty: PropType::IntEnum(1, vec!["a", "b"]), name: "mode", label: "Mo", desc: "mo" },
        PropDef {
            access: PropAccess::Write,
            ty: PropType::StrEnum(0, vec![("easy", "E"), ("hard", "H")]),
            name: "difficulty",
            label: "D",
            desc: "d",
        },
    ];
    let json = schema(&defs, &vec!["pvp", "motd"]);
    assert_eq!(
        json,
        "{\"schema\":{\"pvp\":{\"access\":\"write\",\"type\":{\"name\":\"boolean\",\"default\":true},\"label\":\"PvP\",\"desc\":\"Fight\"},\
         \"offset\":{\"access\":\"read\",\"type\":{\"name\":\"integer\",\"default\":-1,\"min\":-10,\"max\":10},\"label\":\"O\",\"desc\":\"o\"},\
         \"count\":{\"access\":\"write\",\"type\":{\"name\":\"integer\",\"default\":3,\"min\":1,\"max\":9},\"label\":\"C\",\"desc\":\"c\"},\
         \"when\":{\"access\":\"write\",\"type\":{\"name\":\"string\",\"default\":\"\"},\"label\":\"W\",\"desc\":\"w\"},\
         \"motd\":{\"access\":\"write\",\"type\":{\"name\":\"string\",\"default\":\"s\"},\"label\":\"M\",\"desc\":\"m\"},\
         \"mode\":{\"access\":\"write\",\"type\":{\"name\":\"integer-enum\",\"default\":1,\"members\":[\"a\",\"b\"]},\"label\":\"Mo\",\"desc\":\"mo\"},\
         \"difficulty\":{\"access\":\"write\",\"type\":{\"name\":\"string-enum\",\"default\":0,\"members\":[[\"easy\",\"E\"],[\"hard\",\"H\"]]},\"label\":\"D\",\"desc\":\"d\"}},\
         \"create_properties\":[\"pvp\",\"motd\"]}"
    );
}

#[test]
fn full_schema_lists_create_properties() {
    let json = schema(&properties(), &create_properties());
    assert!(json.starts_with("{\"schema\":{\"allow-flight\":{\"access\":\"write\""));
    assert!(json.ends_with(
        "\"create_properties\":[\"motd\",\"level-seed\",\"gamemode\",\"difficulty\",\"server-port\",\"pvp\",\
         \"max-players\",\"enable-command-block\",\"online-mode\",\"enforce-secure-profile\",\"level-type\"]}"
    ));
    assert!(!json.contains("\"enable-jmx-monitoring\""));
}

#[test]
fn create_then_load_round_trip() {
    let schema = properties();
    let values = vec![
        ("motd".to_string(), PropValue::String("hi".to_string())),
        ("server-port".to_string(), PropValue::Uint(25570)),
    ];
    let text = create(&schema, "w1", "1.20.1", &values, Err(ApiError::NotFound), true, "2024-01-02 03:04:05").unwrap();
    assert!(text.contains("\r\nserver-port=25570\r\n"));
    assert!(text.contains("mc-manager-server-version=1.20.1\r\n"));
    assert!(text.contains("mc-manager-create-time=2024-01-02 03:04:05\r\n"));
    let json = load(&schema, "w1", InstanceStatus::Cold, &text);
    assert!(json.starts_with("{\"name\":\"w1\",\"status\":\"cold\""));
    assert!(json.contains(",\"motd\":\"hi\""));
    assert!(json.contains(",\"server-port\":25570"));
}

#[test]
fn create_refuses_unsafe_names() {
    for name in ["CON", "a/b", "..", "ok ", "ok."] {
        let r = create(&properties(), name, "1.20.1", &vec![], Err(ApiError::NotFound), true, "now");
        assert_eq!(r, Err(ApiError::BadName));
        assert_eq!(ApiError::BadName.status_code(), 400);
    }
}

#[test]
fn create_checks_in_order() {
    let schema = properties();
    assert_eq!(create(&schema, "w1", "v", &vec![], Ok(()), true, "now"), Err(ApiError::AlreadyExists));
    assert_eq!(
        create(&schema, "w1", "v", &vec![], Err(ApiError::IOError("disk".to_string())), true, "now"),
        Err(ApiError::IOError("disk".to_string()))
    );
    assert_eq!(create(&schema, "w1", "v", &vec![], Err(ApiError::NotFound), false, "now"), Err(ApiError::VersionNotFound));
    let bad = vec![("server-port".to_string(), PropValue::Uint(0))];
    assert_eq!(
        create(&schema, "w1", "v", &bad, Err(ApiError::NotFound), true, "now"),
        Err(ApiError::PropertyInvalid("server-port".to_string()))
    );
}

#[test]
fn modify_validates_then_merges() {
    let schema = properties();
    let content = "motd=old\r\nserver-port=1\r\n";
    let ok = vec![("motd".to_string(), PropValue::String("new".to_string()))];
    assert_eq!(modify(&schema, content, &ok), Ok("motd=new\r\nserver-port=1\r\n".to_string()));
    let ro = vec![("mc-manager-create-time".to_string(), PropValue::String("x".to_string()))];
    assert_eq!(modify(&schema, content, &ro), Err(ApiError::PropertyReadOnly("mc-manager-create-time".to_string())));
}

#[test]
fn access_sets_access_time() {
    let content = "motd=x\r\nmc-manager-access-time=old\r\n";
    assert_eq!(
        access_at(content, "2024-05-06 07:08:09".to_string()),
        "motd=x\r\nmc-manager-access-time=2024-05-06 07\\:08\\:09\r\n"
    );
    let now = read_property(&access(content), "mc-manager-access-time").unwrap();
    assert_eq!(now.len(), 19);
    assert_ne!(now, "old");
    let props = read_properties(&access("motd=x\r\n"));
    assert!(props.get(&"mc-manager-access-time".to_string()).is_some());
}

#[test]
fn port_of_reads_server_port() {
    assert_eq!(port_of("server-port=25565\r\n"), Ok(25565));
    assert_eq!(port_of("server-port=+80\r\nserver-port=1\r\n"), Ok(80));
    assert_eq!(port_of("server-port=70000\r\n"), Err(ApiError::BadConfig("server-port".to_string())));
    assert_eq!(port_of("motd=x\r\n"), Err(ApiError::BadConfig("server-port".to_string())));
}

#[test]
fn saves_json_joins_objects() {
    assert_eq!(saves_json(&vec![]), "{\"saves\":[]}");
    assert_eq!(saves_json(&vec!["{\"a\":1}".to_string(), "{\"b\":2}".to_string()]), "{\"saves\":[{\"a\":1},{\"b\":2}]}");
}

#[test]
fn access_time_reads_back_with_duplicate_lines() {
    let content = "mc-manager-access-time=old\r\nmotd=x\r\nmc-manager-access-time=older\r\n";
    let out = access_at(content, "2024-05-06 07:08:09".to_string());
    let props = read_properties(&out);
    assert_eq!(props.get(&"mc-manager-access-time".to_string()), Some("2024-05-06 07:08:09".to_string()));
    assert_eq!(props.get(&"motd".to_string()), Some("x".to_string()));
}

#[test]
fn saves_body_uses_registry_status() {
    let mut registry = Registry::new();
    registry.record_start("w2", 25566);
    let saves = vec![
        ("w1".to_string(), "pvp=true\r\n".to_string()),
        ("w2".to_string(), "pvp=false\r\n".to_string()),
    ];
    let schema = vec![PropDef { access: PropAccess::Write, ty: PropType::Bool(true), name: "pvp", label: "P", desc: "p" }];
    assert_eq!(
        saves_body(&schema, &registry, &saves),
        "{\"saves\":[{\"name\":\"w1\",\"status\":\"cold\",\"pvp\":true},{\"name\":\"w2\",\"status\":\"loading\",\"pvp\":false}]}"
    );
    assert_eq!(saves_body(&schema, &registry, &vec![]), "{\"saves\":[]}");
}

#[test]
fn schema_table_entries_used_by_scenarios() {
    let table = properties();
    let find = |n: &str| table.iter().position(|d| d.name == n).unwrap();
    assert_eq!(find("difficulty"), 4);
    assert_eq!(find("mc-manager-server-version"), 29);
    assert_eq!(find("mc-manager-create-time"), 30);
    assert_eq!(find("mc-manager-access-time"), 31);
    assert_eq!(find("motd"), 32);
    assert_eq!(find("server-port"), 49);
    assert_eq!(table[49].access, PropAccess::Write);
    assert_eq!(table[31].access, PropAccess::Read);
    assert_eq!(create_properties()[4], "server-port");
}
