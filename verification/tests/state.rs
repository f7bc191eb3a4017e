use rug::state::{
    configured_state_path, expand_resource, is_covered_by, is_data_address, is_remote_backend,
    module_prefix, parsed_state, pull_failure, resolve_state_path, split_top_segments, state_source,
    BackendConfig, IndexKey, Instance, StateContent, StateResource, StateSource, TfResource,
};
use serde_json::Value;

/// An instance object, as it is read from JSON.
fn instance(json: &str) -> Instance {
    let value: Value = serde_json::from_str(json).unwrap();
    let index_key = match value.get("index_key") {
        None | Some(Value::Null) => IndexKey::Absent,
        Some(Value::Number(n)) => IndexKey::Number(n.to_string()),
        Some(Value::String(s)) => IndexKey::Text(s.clone()),
        Some(other) => IndexKey::Other(other.to_string()),
    };
    Instance {
        index_key,
        status: value.get("status").and_then(Value::as_str).map(str::to_string),
        body: value.to_string(),
    }
}

/// The resource blocks of a state document, as they are read from JSON.
fn blocks(json: &str) -> Result<Option<Vec<TfResource>>, String> {
    let value: Value = serde_json::from_str(json).map_err(|e| e.to_string())?;
    let text = |v: &Value, key: &str| v.get(key).and_then(Value::as_str).map(str::to_string);
    Ok(value.get("resources").and_then(Value::as_array).map(|rs| {
        rs.iter()
            .map(|r| TfResource {
                mode: text(r, "mode").unwrap_or_default(),
                resource_type: text(r, "type").unwrap_or_default(),
                name: text(r, "name").unwrap_or_default(),
                module: text(r, "module"),
                instances: r
                    .get("instances")
                    .and_then(Value::as_array)
                    .map(|is| is.iter().map(|i| instance(&i.to_string())).collect())
                    .unwrap_or_default(),
            })
            .collect()
    }))
}

fn addresses(content: StateContent) -> Vec<String> {
    match content {
        StateContent::Resources(rs) => rs.into_iter().map(|r| r.address).collect(),
        other => panic!("expected Resources, got {other:?}"),
    }
}

#[test]
fn corrupt_json_is_error_not_no_state() {
    let content = parsed_state(blocks("{ not valid json"));
    match content {
        StateContent::Error(m) => assert!(m.starts_with("failed to parse state: ")),
        other => panic!("expected Error, got {other:?}"),
    }
}

#[test]
fn empty_resources_is_no_state() {
    let content = parsed_state(blocks(r#"{"resources": []}"#));
    assert!(matches!(content, StateContent::NoState));
}

#[test]
fn unindexed_instance_has_no_suffix() {
    let r = TfResource {
        mode: "managed".to_string(),
        resource_type: "aws_vpc".to_string(),
        name: "main".to_string(),
        module: None,
        instances: vec![instance(r#"{"schema_version": 0}"#)],
    };
    let addrs: Vec<String> = expand_resource(r).into_iter().map(|s| s.address).collect();
    assert_eq!(addrs, vec!["aws_vpc.main"]);
}

#[test]
fn count_instances_get_numeric_index_suffix() {
    let r = TfResource {
        mode: "managed".to_string(),
        resource_type: "aws_instance".to_string(),
        name: "web".to_string(),
        module: None,
        instances: vec![instance(r#"{"index_key": 0}"#), instance(r#"{"index_key": 1}"#)],
    };
    let addrs: Vec<String> = expand_resource(r).into_iter().map(|s| s.address).collect();
    assert_eq!(addrs, vec!["aws_instance.web[0]", "aws_instance.web[1]"]);
}

#[test]
fn for_each_instance_gets_string_key_suffix() {
    let r = TfResource {
        mode: "managed".to_string(),
        resource_type: "null_resource".to_string(),
        name: "zone".to_string(),
        module: None,
        instances: vec![instance(r#"{"index_key": "us-east-1"}"#)],
    };
    let addrs: Vec<String> = expand_resource(r).into_iter().map(|s| s.address).collect();
    assert_eq!(addrs, vec!["null_resource.zone[\"us-east-1\"]"]);
}

#[test]
fn module_and_data_address_forms() {
    let data = TfResource {
        mode: "data".to_string(),
        resource_type: "aws_ami".to_string(),
        name: "ubuntu".to_string(),
        module: Some("module.net".to_string()),
        instances: vec![instance("{}")],
    };
    let addrs: Vec<String> = expand_resource(data).into_iter().map(|s| s.address).collect();
    assert_eq!(addrs, vec!["module.net.data.aws_ami.ubuntu"]);
}

#[test]
fn module_prefix_root_and_data_are_none() {
    assert_eq!(module_prefix("aws_vpc.main"), None);
    assert_eq!(module_prefix("data.aws_ami.u"), None);
}

#[test]
fn module_prefix_single_and_nested() {
    assert_eq!(
        module_prefix("module.net.null_resource.a[0]"),
        Some("module.net".to_string())
    );
    assert_eq!(
        module_prefix("module.a.module.b.res.x"),
        Some("module.a.module.b".to_string())
    );
}

#[test]
fn module_prefix_indexed_and_dotted_key() {
    assert_eq!(
        module_prefix(r#"module.net["a"].res.x"#),
        Some(r#"module.net["a"]"#.to_string())
    );
    assert_eq!(
        module_prefix(r#"module.net["us.east"].aws_vpc.x"#),
        Some(r#"module.net["us.east"]"#.to_string())
    );
}

#[test]
fn module_prefix_stops_before_data_leaf() {
    assert_eq!(
        module_prefix("module.net.data.aws_ami.u"),
        Some("module.net".to_string())
    );
}

#[test]
fn is_covered_by_boundaries() {
    assert!(is_covered_by("module.net", "module.net"));
    assert!(is_covered_by("module.net.res.x", "module.net"));
    assert!(is_covered_by(r#"module.net["a"].res.x"#, "module.net"));
    // A sibling that only shares the text is not covered.
    assert!(!is_covered_by("module.net2.res.x", "module.net"));
}

#[test]
fn is_data_address_leaf_check() {
    assert!(is_data_address("data.aws_ami.u"));
    assert!(is_data_address("module.net.data.aws_ami.u"));
    assert!(!is_data_address("module.net.null_resource.a"));
    assert!(!is_data_address("aws_vpc.main"));
}

#[test]
fn parse_state_from_str_expands_multiple_resources() {
    let json_str = r#"{
            "resources": [
                {
                    "mode": "managed",
                    "type": "aws_vpc",
                    "name": "main",
                    "instances": [{"schema_version": 0}]
                }
            ]
        }"#;
    let addrs = addresses(parsed_state(blocks(json_str)));
    assert_eq!(addrs, vec!["aws_vpc.main"]);
}

#[test]
fn a_document_without_resources_is_no_state() {
    assert!(matches!(parsed_state(blocks("{}")), StateContent::NoState));
}

#[test]
fn segments_are_split_at_dots_outside_brackets_and_strings() {
    assert_eq!(
        split_top_segments(r#"module.net["us.east"].aws_vpc.x"#),
        vec!["module", r#"net["us.east"]"#, "aws_vpc", "x"]
    );
    assert_eq!(split_top_segments(""), vec![""]);
    assert_eq!(split_top_segments(r#"a["x\".y"].b"#), vec![r#"a["x\".y"]"#, "b"]);
}

#[test]
fn a_prefix_covers_its_own_address() {
    for addr in ["module.net.res.x", r#"module.net["a"].res.x"#, "module.a.module.b.data.t.n"] {
        let p = module_prefix(addr).unwrap();
        assert!(is_covered_by(addr, &p));
        assert!(!is_covered_by(&p, addr));
    }
}

#[test]
fn tainted_instances_are_told_apart() {
    let tainted = StateResource {
        address: "a.b".to_string(),
        instance: instance(r#"{"status": "tainted"}"#),
    };
    let sound = StateResource { address: "a.b".to_string(), instance: instance("{}") };
    assert!(tainted.is_tainted());
    assert!(!sound.is_tainted());
}

fn local(path: Option<&str>) -> Option<BackendConfig> {
    Some(BackendConfig { backend_type: "local".to_string(), path: path.map(str::to_string) })
}

#[test]
fn a_local_backend_may_name_its_state_file() {
    assert_eq!(
        configured_state_path("/m/app", &local(Some("../shared/x.tfstate"))),
        Some("/m/shared/x.tfstate".to_string())
    );
    assert_eq!(configured_state_path("/m/app", &local(None)), None);
    assert_eq!(configured_state_path("/m/app", &None), None);
    assert_eq!(
        resolve_state_path("/m/app", &local(Some("x.tfstate")), true, true),
        Some("/m/app/x.tfstate".to_string())
    );
    assert_eq!(
        resolve_state_path("/m/app", &local(Some("x.tfstate")), false, true),
        Some("/m/app/terraform.tfstate".to_string())
    );
    assert_eq!(resolve_state_path("/m/app", &None, false, false), None);
    assert!(!is_remote_backend(&local(None)));
    assert!(!is_remote_backend(&None));
    let s3 = Some(BackendConfig { backend_type: "s3".to_string(), path: None });
    assert!(is_remote_backend(&s3));
}

#[test]
fn state_comes_from_a_file_a_pull_or_nowhere() {
    let file = state_source("/m", true, Some("/m/x.tfstate".to_string()), false, false);
    assert!(matches!(file, StateSource::File(p) if p == "/m/x.tfstate"));
    assert!(matches!(state_source("/m", true, None, true, false), StateSource::Pull));
    assert!(matches!(state_source("/m", true, None, false, false), StateSource::NoState));
    assert!(matches!(
        state_source("/m", false, None, false, false),
        StateSource::NotInitialized
    ));
    let bare = state_source("/m", false, None, false, true);
    assert!(matches!(bare, StateSource::File(p) if p == "/m/terraform.tfstate"));
}

#[test]
fn a_failed_pull_shows_what_the_command_said() {
    match pull_failure("  no access\n") {
        StateContent::Error(m) => assert_eq!(m, "no access"),
        other => panic!("expected Error, got {other:?}"),
    }
    match pull_failure(" \n") {
        StateContent::Error(m) => assert_eq!(m, "`state pull` failed"),
        other => panic!("expected Error, got {other:?}"),
    }
}

#[test]
fn a_module_prefix_leaves_a_leaf_and_is_found_again() {
    for (addr, prefix, leaf) in [
        ("module.net.aws_vpc.main", "module.net", "aws_vpc.main"),
        ("module.a[\"x.y\"].module.b.data.t.n", "module.a[\"x.y\"].module.b", "data.t.n"),
        ("module.a.module.b", "module.a", "module.b"),
    ] {
        assert_eq!(module_prefix(addr).as_deref(), Some(prefix));
        assert_eq!(format!("{prefix}.{leaf}"), addr);
        assert!(split_top_segments(leaf).len() >= 2);
        assert_eq!(module_prefix(leaf), None);
        assert_eq!(module_prefix(&format!("{prefix}.t.n")).as_deref(), Some(prefix));
    }
    assert_eq!(module_prefix("module.net.aws_vpc"), None);
    assert_eq!(module_prefix("aws_vpc.main.a.b"), None);
}
