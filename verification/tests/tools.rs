use ecp_demo::argv::{build_argv, reserved_token};
use ecp_demo::json::Json;
use ecp_demo::tools::{demo_tools, DemoTool, Tool, ALLOWED, RESERVED_ARGS};

fn s(v: &str) -> Json {
    Json::Str(v.to_string())
}

fn obj(entries: Vec<(&str, Json)>) -> Json {
    Json::Object(entries.into_iter().map(|(k, v)| (k.to_string(), v)).collect())
}

fn strings(v: &[&str]) -> Vec<String> {
    v.iter().map(|x| x.to_string()).collect()
}

fn typed(t: &str) -> Json {
    obj(vec![("type", s(t))])
}

/// A tool entry as `ecp admin mcp tools --format json` lists it.
fn entry(
    subcommand: &str,
    properties: Vec<(&str, Json)>,
    required: &[&str],
    flag_args: &[&str],
    positional_args: &[&str],
    subcmd_arg: Option<&str>,
) -> Tool {
    Tool {
        name: format!("ecp_{}", subcommand.replace('-', "_")),
        subcommand: subcommand.to_string(),
        description: format!("{} over the code graph", subcommand),
        schema: obj(vec![
            ("properties", obj(properties)),
            ("required", Json::Array(required.iter().map(|r| s(r)).collect())),
            ("type", s("object")),
        ]),
        flag_args: strings(flag_args),
        positional_args: strings(positional_args),
        prefix_args: Vec::new(),
        subcmd_arg: subcmd_arg.map(|a| a.to_string()),
    }
}

/// Every tool of the captured list: the allowlisted subcommands, and the
/// mutating or stateful ones that the demo must not expose.
fn tool_list() -> Vec<Tool> {
    let mut list = Vec::new();
    for sub in ALLOWED.iter() {
        let tool = match *sub {
            "find" => entry(
                "find",
                vec![
                    ("all", typed("boolean")),
                    ("graph", typed("string")),
                    ("mode", typed("string")),
                    ("pattern", typed("string")),
                    ("repo", typed("string")),
                ],
                &["pattern", "repo"],
                &["all"],
                &["pattern"],
                None,
            ),
            "inspect" => entry(
                "inspect",
                vec![
                    ("graph", typed("string")),
                    ("includeTests", typed("boolean")),
                    ("kind", typed("string")),
                    ("name", typed("string")),
                    ("repo", typed("string")),
                ],
                &["name"],
                &["includeTests"],
                &["name"],
                None,
            ),
            "schema" => entry(
                "schema",
                vec![
                    ("repo", typed("string")),
                    (
                        "subcmd",
                        obj(vec![
                            ("enum", Json::Array(vec![s("node-kinds"), s("edge-kinds")])),
                            ("type", s("string")),
                        ]),
                    ),
                ],
                &["subcmd"],
                &[],
                &[],
                Some("subcmd"),
            ),
            other => entry(other, vec![("repo", typed("string"))], &[], &[], &[], None),
        };
        list.push(tool);
    }
    for banned in ["rename", "uninstall", "admin", "peers", "group", "usage", "review", "diff"] {
        list.push(entry(banned, vec![("repo", typed("string"))], &[], &[], &[], None));
    }
    list
}

fn tools() -> Vec<DemoTool> {
    demo_tools(tool_list()).unwrap()
}

fn tool(sub: &str) -> DemoTool {
    tools()
        .into_iter()
        .find(|t| t.inner.subcommand == sub)
        .unwrap_or_else(|| panic!("{sub} is allowlisted"))
}

#[test]
fn demo_tools_exclude_every_mutating_or_stateful_subcommand() {
    let tools = tools();
    let names: Vec<&str> = tools.iter().map(|t| t.inner.subcommand.as_str()).collect();
    for banned in [
        "rename",
        "uninstall",
        "peers",
        "group",
        "usage",
        "review",
        "diff",
    ] {
        assert!(!names.contains(&banned), "{banned} must not be exposed");
    }
    assert_eq!(
        names.len(),
        ALLOWED.len(),
        "every allowlisted subcommand resolves: {names:?}"
    );
}

#[test]
fn public_schema_drops_reserved_args_but_keeps_the_rest() {
    let find = tool("find");
    assert!(find.takes_repo);
    let props = match find.public_schema.get("properties") {
        Some(Json::Object(props)) => props,
        other => panic!("properties is an object: {other:?}"),
    };
    let has = |key: &str| props.iter().any(|(k, _)| k == key);
    for reserved in RESERVED_ARGS.iter() {
        assert!(!has(reserved), "{reserved} leaked into the public schema");
    }
    assert!(has("pattern"), "positional `pattern` survives");
    assert!(has("mode"), "`--mode` survives");
}

#[test]
fn build_argv_puts_positionals_first_and_bare_flags_without_values() {
    let find = tool("find");
    let argv = build_argv(
        &find.inner,
        &obj(vec![("all", Json::Bool(true)), ("mode", s("fuzzy")), ("pattern", s("x"))]),
    )
    .unwrap();
    assert_eq!(argv[0], "x", "positional leads: {argv:?}");
    assert!(
        argv.contains(&"--all".to_string()) && !argv.contains(&"true".to_string()),
        "{argv:?}"
    );
    let flag_pos = argv.iter().position(|t| t == "--mode").unwrap();
    assert_eq!(argv[flag_pos + 1], "fuzzy");
    let argv = build_argv(&find.inner, &obj(vec![("all", Json::Bool(false)), ("pattern", s("x"))])).unwrap();
    assert_eq!(argv, ["x"], "a false bare flag is dropped");
}

#[test]
fn build_argv_kebab_cases_keys_and_rejects_nested_values() {
    let inspect = tool("inspect");
    let argv = build_argv(
        &inspect.inner,
        &obj(vec![("includeTests", Json::Bool(true)), ("name", s("f"))]),
    )
    .unwrap();
    assert!(argv.iter().any(|t| t == "--include-tests"), "{argv:?}");
    let err = build_argv(
        &inspect.inner,
        &obj(vec![("kind", Json::Array(vec![s("a")])), ("name", s("f"))]),
    )
    .unwrap_err();
    assert!(err.contains("nested"), "{err}");
}

#[test]
fn build_argv_peels_the_router_discriminator_and_validates_it() {
    let schema = tool("schema");
    assert_eq!(schema.inner.subcmd_arg.as_deref(), Some("subcmd"));
    let argv = build_argv(&schema.inner, &obj(vec![("subcmd", s("node-kinds"))])).unwrap();
    assert_eq!(argv[0], "node-kinds");
    assert!(build_argv(&schema.inner, &obj(vec![]))
        .unwrap_err()
        .contains("subcmd"));
    assert!(build_argv(&schema.inner, &obj(vec![("subcmd", s("nope"))]))
        .unwrap_err()
        .contains("must be one of"));
}

#[test]
fn reserved_token_catches_key_spelling_and_positional_smuggling() {
    let find = tool("find");
    let argv = |args: Json| build_argv(&find.inner, &args).unwrap();
    assert_eq!(
        reserved_token(&argv(obj(vec![("graph", s("/etc/passwd")), ("pattern", s("x"))]))),
        Some("graph")
    );
    assert_eq!(
        reserved_token(&argv(obj(vec![("Graph", s("/etc/passwd")), ("pattern", s("x"))]))),
        Some("graph"),
        "`Graph` kebab-cases to --graph"
    );
    assert_eq!(
        reserved_token(&argv(obj(vec![("pattern", s("--graph=/etc/shadow"))]))),
        Some("graph"),
        "a positional value is passed verbatim and clap reads it as the flag"
    );
    assert_eq!(
        reserved_token(&argv(obj(vec![("pattern", s("x")), ("repo", s("/"))]))),
        Some("repo")
    );
    assert_eq!(
        reserved_token(&argv(obj(vec![
            ("all", Json::Bool(true)),
            ("mode", s("fuzzy")),
            ("pattern", s("x")),
        ]))),
        None
    );
    assert_eq!(
        reserved_token(&argv(obj(vec![("pattern", s("graph"))]))),
        None,
        "a bare word is not a flag"
    );
}
