use ecp_demo::argv::{build_argv, json_to_argv, peel_subcmd, reserved_token};
use ecp_demo::json::{debug_text, kind_name, value_as_string, Json};
use ecp_demo::spawn::ecp_env_key;
use ecp_demo::text::to_kebab;
use ecp_demo::tools::{demo_tools, strip_schema, DemoTool, Tool};

fn s(v: &str) -> Json {
    Json::Str(v.to_string())
}

fn n(v: &str) -> Json {
    Json::Number(v.to_string())
}

fn obj(entries: Vec<(&str, Json)>) -> Json {
    Json::Object(entries.into_iter().map(|(k, v)| (k.to_string(), v)).collect())
}

fn strings(v: &[&str]) -> Vec<String> {
    v.iter().map(|x| x.to_string()).collect()
}

fn plain_tool(flag_args: &[&str], positional_args: &[&str]) -> Tool {
    Tool {
        name: "ecp_find".to_string(),
        subcommand: "find".to_string(),
        description: "find symbols".to_string(),
        schema: obj(vec![]),
        flag_args: strings(flag_args),
        positional_args: strings(positional_args),
        prefix_args: Vec::new(),
        subcmd_arg: None,
    }
}

fn router_tool() -> Tool {
    Tool {
        name: "ecp_schema".to_string(),
        subcommand: "schema".to_string(),
        description: "schema".to_string(),
        schema: obj(vec![(
            "properties",
            obj(vec![(
                "subcmd",
                obj(vec![("enum", Json::Array(vec![s("node-kinds"), s("edge-kinds")]))]),
            )]),
        )]),
        flag_args: Vec::new(),
        positional_args: strings(&["name"]),
        prefix_args: strings(&["--format", "json"]),
        subcmd_arg: Some("subcmd".to_string()),
    }
}

#[test]
fn to_kebab_follows_clap_flag_names() {
    assert_eq!(to_kebab("includeTests"), "include-tests");
    assert_eq!(to_kebab("include_tests"), "include-tests");
    assert_eq!(to_kebab("Graph"), "graph");
    assert_eq!(to_kebab("ABC"), "a-b-c");
    assert_eq!(to_kebab("plain"), "plain");
    assert_eq!(to_kebab(""), "");
    assert_eq!(to_kebab("héÉ"), "héÉ");
    assert_eq!(to_kebab("GRAPH"), "g-r-a-p-h");
}

#[test]
fn reserved_token_reads_flags_as_clap_does() {
    let argv = strings(&["x", "--mode", "--batch=1", "--repo"]);
    assert_eq!(reserved_token(&argv), Some("batch"));
    assert_eq!(reserved_token(&strings(&["--graph="])), Some("graph"));
    assert_eq!(reserved_token(&strings(&["-graph", "graph", "--graphs", "--"])), None);
    assert_eq!(reserved_token(&strings(&[])), None);
}

#[test]
fn json_to_argv_refuses_what_is_not_an_object() {
    let err = json_to_argv(&Json::Array(vec![]), &[], &[]).unwrap_err();
    assert_eq!(err, "expected a JSON object for args, got array");
    let err = json_to_argv(&Json::Null, &[], &[]).unwrap_err();
    assert_eq!(err, "expected a JSON object for args, got null");
}

#[test]
fn json_to_argv_passes_scalars_and_skips_null() {
    let args = obj(vec![
        ("depth", n("3")),
        ("fast", Json::Bool(false)),
        ("name", s("f")),
        ("none", Json::Null),
        ("pattern", n("7")),
        ("quiet", Json::Bool(true)),
    ]);
    let argv = json_to_argv(&args, &strings(&["quiet"]), &strings(&["pattern", "name", "missing"])).unwrap();
    assert_eq!(argv, ["7", "f", "--depth", "3", "--fast", "false", "--quiet"]);
}

#[test]
fn json_to_argv_names_the_nested_key() {
    let args = obj(vec![("a", s("1")), ("deep", obj(vec![])), ("z", Json::Array(vec![]))]);
    let err = json_to_argv(&args, &[], &[]).unwrap_err();
    assert_eq!(err, "nested array/object args not supported (key=deep)");
    let args = obj(vec![("list", Json::Array(vec![]))]);
    assert!(json_to_argv(&args, &[], &strings(&["list"])).unwrap().is_empty());
}

#[test]
fn peel_subcmd_errors_say_what_is_wrong() {
    let tool = router_tool();
    let err = peel_subcmd(&tool, &s("x")).unwrap_err();
    assert_eq!(err, "expected a JSON object for args of ecp_schema");
    let err = peel_subcmd(&tool, &obj(vec![("subcmd", n("1"))])).unwrap_err();
    assert_eq!(err, "missing required `subcmd` discriminator");
    let err = peel_subcmd(&tool, &obj(vec![("subcmd", s("no\"pe"))])).unwrap_err();
    assert_eq!(
        err,
        "`subcmd` must be one of [String(\"node-kinds\"), String(\"edge-kinds\")], got \"no\\\"pe\""
    );
}

#[test]
fn peel_subcmd_lifts_the_discriminator() {
    let tool = router_tool();
    let (lifted, rest) = peel_subcmd(&tool, &obj(vec![("name", s("n")), ("subcmd", s("edge-kinds"))])).unwrap();
    assert_eq!(lifted.as_deref(), Some("edge-kinds"));
    assert_eq!(debug_text(&rest), "Object {\"name\": String(\"n\")}");
    let plain = plain_tool(&[], &[]);
    let (lifted, rest) = peel_subcmd(&plain, &n("5")).unwrap();
    assert!(lifted.is_none());
    assert_eq!(debug_text(&rest), "Number(5)");
}

#[test]
fn build_argv_orders_router_prefix_positionals_flags() {
    let tool = router_tool();
    let argv = build_argv(
        &tool,
        &obj(vec![("limit", n("2")), ("name", s("n")), ("subcmd", s("node-kinds"))]),
    )
    .unwrap();
    assert_eq!(argv, ["node-kinds", "--format", "json", "n", "--limit", "2"]);
}

#[test]
fn debug_text_renders_like_serde_json() {
    let v = obj(vec![
        ("a", Json::Array(vec![Json::Null, Json::Bool(true), n("1.5")])),
        ("b", obj(vec![])),
    ]);
    assert_eq!(
        debug_text(&v),
        "Object {\"a\": Array [Null, Bool(true), Number(1.5)], \"b\": Object {}}"
    );
}

#[test]
fn value_as_string_and_kind_name() {
    assert_eq!(value_as_string(&s("x")), Some("x".to_string()));
    assert_eq!(value_as_string(&n("12")), Some("12".to_string()));
    assert_eq!(value_as_string(&Json::Bool(false)), Some("false".to_string()));
    assert_eq!(value_as_string(&Json::Null), None);
    assert_eq!(value_as_string(&Json::Array(vec![])), None);
    assert_eq!(kind_name(&Json::Bool(true)), "bool");
    assert_eq!(kind_name(&n("1")), "number");
    assert_eq!(kind_name(&s("")), "string");
    assert_eq!(kind_name(&obj(vec![])), "object");
}

#[test]
fn public_schema_strips_required_names_and_keeps_other_members() {
    let schema = obj(vec![
        ("properties", obj(vec![("batch", obj(vec![])), ("q", obj(vec![]))])),
        ("required", Json::Array(vec![s("q"), s("batch"), n("1"), s("graph")])),
        ("type", s("object")),
    ]);
    let public = strip_schema(&schema);
    assert_eq!(
        debug_text(&public),
        "Object {\"properties\": Object {\"q\": Object {}}, \"required\": Array [String(\"q\"), Number(1)], \"type\": String(\"object\")}"
    );
    assert_eq!(debug_text(&strip_schema(&s("x"))), "String(\"x\")");
}

#[test]
fn demo_tool_new_reports_repo_and_listing_shows_public_schema() {
    let mut tool = plain_tool(&[], &["pattern"]);
    tool.schema = obj(vec![("properties", obj(vec![("pattern", obj(vec![])), ("repo", obj(vec![]))]))]);
    let demo = DemoTool::new(tool);
    assert!(demo.takes_repo);
    let listing = demo.listing();
    assert_eq!(listing.name, "ecp_find");
    assert_eq!(listing.subcommand, "find");
    assert_eq!(listing.positional_args, &["pattern".to_string()][..]);
    assert_eq!(debug_text(listing.schema), "Object {\"properties\": Object {\"pattern\": Object {}}}");
    let demo = DemoTool::new(plain_tool(&[], &[]));
    assert!(!demo.takes_repo);
}

#[test]
fn demo_tools_refuses_a_list_without_an_allowlisted_tool() {
    let mut t = plain_tool(&[], &[]);
    t.subcommand = "rename".to_string();
    let err = demo_tools(vec![t]).unwrap_err();
    assert_eq!(err, "no allowlisted tool in the ecp tool list");
    assert!(demo_tools(Vec::new()).is_err());
}

#[test]
fn demo_tools_keeps_order() {
    let mut a = plain_tool(&[], &[]);
    a.subcommand = "schema".to_string();
    let mut b = plain_tool(&[], &[]);
    b.subcommand = "admin".to_string();
    let c = plain_tool(&[], &[]);
    let demo = demo_tools(vec![a, b, c]).unwrap();
    let subs: Vec<&str> = demo.iter().map(|d| d.inner.subcommand.as_str()).collect();
    assert_eq!(subs, ["schema", "find"]);
}

#[test]
fn ecp_env_keeps_only_what_the_cli_needs() {
    for key in ["PATH", "HOME", "TMPDIR", "ECP_", "ECP_REGISTRY"] {
        assert!(ecp_env_key(key), "{key}");
    }
    for key in ["GITHUB_TOKEN", "ECP", "path", "XECP_A", "PATHS"] {
        assert!(!ecp_env_key(key), "{key}");
    }
}

#[test]
fn guard_catches_every_spelling_of_a_reserved_flag() {
    let tool = plain_tool(&["Batch"], &["pattern"]);
    for args in [
        obj(vec![("Repo", s("/"))]),
        obj(vec![("Batch", Json::Bool(true))]),
        obj(vec![("repo", n("1"))]),
        obj(vec![("pattern", s("--repo=/"))]),
    ] {
        let argv = build_argv(&tool, &args).unwrap();
        assert!(reserved_token(&argv).is_some(), "{argv:?}");
    }
    let argv = build_argv(&tool, &obj(vec![("Batch", Json::Bool(false))])).unwrap();
    assert_eq!(reserved_token(&argv), None);
}
