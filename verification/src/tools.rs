//! The tool surface, as `ecp` itself describes it: the read-only subset of
//! its tools, their public schemas, and the argv a tool call becomes.

use vstd::prelude::*;
use crate::json::{Json, JsonV, entries_view};
use crate::text::{owned, str_eq};

verus! {

/// Read-only subcommands. Left out on purpose: `rename` edits files;
/// `uninstall` and `admin` mutate the host; `peers`, `group`, `usage`,
/// `review` and `diff` read session, group, telemetry or working-tree state
/// a fresh checkout never carries.
pub const ALLOWED: [&'static str; 14] = [
    "find",
    "inspect",
    "impact",
    "routes",
    "contracts",
    "path",
    "cypher",
    "summary",
    "processes",
    "tool-map",
    "shape-check",
    "heuristics",
    "pattern",
    "schema",
];

/// Flags the server owns. `repo` is set from the selected checkout, `graph`
/// would let a caller point `ecp` at any file in the container (it is a
/// clap global, so every subcommand accepts it), `batch` reads stdin the
/// demo never provides.
pub const RESERVED_ARGS: [&'static str; 3] = ["repo", "graph", "batch"];

/// `name` is one of [`RESERVED_ARGS`].
pub open spec fn is_reserved(name: Seq<char>) -> bool {
    exists|i: int| 0 <= i < RESERVED_ARGS@.len() && RESERVED_ARGS@[i]@ == name
}

/// `name` is one of [`ALLOWED`].
pub open spec fn is_allowed(name: Seq<char>) -> bool {
    exists|i: int| 0 <= i < ALLOWED@.len() && ALLOWED@[i]@ == name
}

/// The reserved name that `name` spells, if it spells one.
pub fn reserved_name(name: &str) -> (r: Option<&'static str>)
    ensures
        match r {
            Some(n) => n@ == name@ && is_reserved(name@),
            None => !is_reserved(name@),
        },
{
    let mut k: usize = 0;
    while k < RESERVED_ARGS.len()
        invariant
            k <= RESERVED_ARGS@.len(),
            forall|j: int| 0 <= j < k ==> #[trigger] RESERVED_ARGS@[j]@ != name@,
        decreases RESERVED_ARGS@.len() - k,
    {
        if str_eq(RESERVED_ARGS[k], name) {
            return Some(RESERVED_ARGS[k]);
        }
        k = k + 1;
    }
    None
}

/// Whether `subcommand` is one of [`ALLOWED`].
pub fn allowed_subcommand(subcommand: &str) -> (r: bool)
    ensures
        r == is_allowed(subcommand@),
{
    let mut k: usize = 0;
    while k < ALLOWED.len()
        invariant
            k <= ALLOWED@.len(),
            forall|j: int| 0 <= j < k ==> #[trigger] ALLOWED@[j]@ != subcommand@,
        decreases ALLOWED@.len() - k,
    {
        if str_eq(ALLOWED[k], subcommand) {
            return true;
        }
        k = k + 1;
    }
    false
}

/// One entry of `ecp admin mcp tools --format json`.
#[derive(Debug)]
pub struct Tool {
    pub name: String,
    pub subcommand: String,
    pub description: String,
    pub schema: Json,
    /// Arg ids emitted as a bare `--flag` when true and dropped when false.
    pub flag_args: Vec<String>,
    /// Arg ids passed as bare values, in declared order, ahead of the flags.
    pub positional_args: Vec<String>,
    /// Fixed tokens ahead of the JSON-derived args (sub-subcommand routers).
    pub prefix_args: Vec<String>,
    /// JSON key lifted out and placed first as the sub-subcommand name.
    pub subcmd_arg: Option<String>,
}

/// A tool that the demo exposes.
#[derive(Debug)]
pub struct DemoTool {
    pub inner: Tool,
    /// Whether `--repo` exists on this subcommand; the runner injects it only then.
    pub takes_repo: bool,
    /// `inner.schema` with the reserved args removed from `properties` and `required`.
    pub public_schema: Json,
}

/// What the tool list shows of a tool.
pub struct ToolListing<'a> {
    pub name: &'a str,
    pub subcommand: &'a str,
    pub description: &'a str,
    pub schema: &'a Json,
    pub positional_args: &'a [String],
}

/// The members of an object that stay in a public schema: all but those
/// under a reserved name.
pub open spec fn public_members(entries: Seq<(Seq<char>, JsonV)>) -> Seq<(Seq<char>, JsonV)> {
    entries.filter(|e: (Seq<char>, JsonV)| !is_reserved(e.0))
}

/// A required-name that names a reserved arg.
pub open spec fn names_reserved(v: JsonV) -> bool {
    match v {
        JsonV::Str(s) => is_reserved(s),
        _ => false,
    }
}

/// The required-names that stay in a public schema: all but the reserved ones.
pub open spec fn public_names(items: Seq<JsonV>) -> Seq<JsonV> {
    items.filter(|v: JsonV| !names_reserved(v))
}

/// A schema member as the public schema has it: `properties`, when an
/// object, loses its reserved members; `required`, when an array, loses the
/// reserved names; any other member stays as it is.
pub open spec fn public_member(e: (Seq<char>, JsonV)) -> (Seq<char>, JsonV) {
    if e.0 == "properties"@ {
        match e.1 {
            JsonV::Object(props) => (e.0, JsonV::Object(public_members(props))),
            _ => e,
        }
    } else if e.0 == "required"@ {
        match e.1 {
            JsonV::Array(items) => (e.0, JsonV::Array(public_names(items))),
            _ => e,
        }
    } else {
        e
    }
}

/// The schema that visitors see: the reserved args taken out of
/// `properties` and `required`.
pub open spec fn public_schema(schema: JsonV) -> JsonV {
    match schema {
        JsonV::Object(entries) => JsonV::Object(entries.map_values(|e: (Seq<char>, JsonV)| public_member(e))),
        _ => schema,
    }
}

/// The schema declares a `repo` property.
pub open spec fn declares_repo(schema: JsonV) -> bool {
    match schema.get("properties"@) {
        Some(props) => props.get("repo"@) is Some,
        None => false,
    }
}

/// An object's members without those under a reserved name.
fn strip_reserved_members(entries: &Vec<(String, Json)>) -> (r: Vec<(String, Json)>)
    ensures
        entries_view(r) == public_members(entries_view(*entries)),
{
    let ghost es = entries_view(*entries);
    let mut out: Vec<(String, Json)> = Vec::new();
    let mut i: usize = 0;
    while i < entries.len()
        invariant
            es == entries_view(*entries),
            i <= entries.len(),
            entries_view(out) == public_members(es.take(i as int)),
        decreases entries.len() - i,
    {
        let ghost before = entries_view(out);
        assert(es.take(i + 1) == es.take(i as int).push(es[i as int]));
        assert(es[i as int] == (entries@[i as int].0@, entries@[i as int].1@));
        proof {
            es.take(i as int).lemma_filter_push(es[i as int], |e: (Seq<char>, JsonV)| !is_reserved(e.0));
        }
        match reserved_name(entries[i].0.as_str()) {
            Some(_) => {},
            None => {
                let k = entries[i].0.clone();
                let v = entries[i].1.clone();
                out.push((k, v));
                assert(entries_view(out) =~= before.push(es[i as int]));
            },
        }
        i = i + 1;
    }
    assert(es.take(entries.len() as int) == es);
    out
}

/// A list of required-names without the reserved ones.
fn strip_reserved_names(items: &Vec<Json>) -> (r: Vec<Json>)
    ensures
        Json::Array(r)@->Array_0 == public_names(Json::Array(*items)@->Array_0),
{
    let ghost xs = Json::Array(*items)@->Array_0;
    let mut out: Vec<Json> = Vec::new();
    let mut i: usize = 0;
    while i < items.len()
        invariant
            xs == Json::Array(*items)@->Array_0,
            i <= items.len(),
            Json::Array(out)@->Array_0 == public_names(xs.take(i as int)),
        decreases items.len() - i,
    {
        let ghost before = Json::Array(out)@->Array_0;
        assert(xs.take(i + 1) == xs.take(i as int).push(xs[i as int]));
        assert(xs[i as int] == items@[i as int]@);
        proof {
            xs.take(i as int).lemma_filter_push(xs[i as int], |v: JsonV| !names_reserved(v));
        }
        let reserved = match items[i].as_str() {
            Some(name) => reserved_name(name).is_some(),
            None => false,
        };
        if !reserved {
            out.push(items[i].clone());
            assert(Json::Array(out)@->Array_0 =~= before.push(xs[i as int]));
        }
        i = i + 1;
    }
    assert(xs.take(items.len() as int) == xs);
    out
}

/// `schema` with the reserved args removed from `properties` and `required`.
pub fn strip_schema(schema: &Json) -> (r: Json)
    ensures
        r@ == public_schema(schema@),
{
    let entries = match schema {
        Json::Object(entries) => entries,
        _ => return schema.clone(),
    };
    let ghost es = entries_view(*entries);
    let mut out: Vec<(String, Json)> = Vec::new();
    let mut i: usize = 0;
    while i < entries.len()
        invariant
            es == entries_view(*entries),
            i <= entries.len(),
            out@.len() == i,
            forall|j: int| 0 <= j < i ==> #[trigger] entries_view(out)[j] == public_member(es[j]),
        decreases entries.len() - i,
    {
        let ghost before = entries_view(out);
        assert(es[i as int] == (entries@[i as int].0@, entries@[i as int].1@));
        let key = entries[i].0.as_str();
        let value: Json = if str_eq(key, "properties") {
            match &entries[i].1 {
                Json::Object(props) => Json::Object(strip_reserved_members(props)),
                other => other.clone(),
            }
        } else if str_eq(key, "required") {
            match &entries[i].1 {
                Json::Array(items) => Json::Array(strip_reserved_names(items)),
                other => other.clone(),
            }
        } else {
            entries[i].1.clone()
        };
        out.push((entries[i].0.clone(), value));
        assert forall|j: int| 0 <= j <= i implies #[trigger] entries_view(out)[j] == public_member(es[j]) by {
            if j < i {
                assert(entries_view(out)[j] == before[j]);
            }
        }
        i = i + 1;
    }
    let r = Json::Object(out);
    assert(schema@ == JsonV::Object(es));
    assert(r@->Object_0 == entries_view(out));
    assert(r@->Object_0 =~= public_schema(schema@)->Object_0);
    r
}

impl DemoTool {
    /// The demo's view of a tool: whether it takes `--repo`, and its schema
    /// without the reserved args.
    pub fn new(inner: Tool) -> (r: Self)
        ensures
            r.inner == inner,
            r.takes_repo == declares_repo(inner.schema@),
            r.public_schema@ == public_schema(inner.schema@),
    {
        let takes_repo = match inner.schema.get("properties") {
            Some(props) => props.get("repo").is_some(),
            None => false,
        };
        let public_schema = strip_schema(&inner.schema);
        DemoTool { inner, takes_repo, public_schema }
    }

    /// What the tool list shows of this tool.
    pub fn listing(&self) -> (r: ToolListing<'_>)
        ensures
            r.name@ == self.inner.name@,
            r.subcommand@ == self.inner.subcommand@,
            r.description@ == self.inner.description@,
            *r.schema == self.public_schema,
            r.positional_args@ == self.inner.positional_args@,
    {
        ToolListing {
            name: self.inner.name.as_str(),
            subcommand: self.inner.subcommand.as_str(),
            description: self.inner.description.as_str(),
            schema: &self.public_schema,
            positional_args: self.inner.positional_args.as_slice(),
        }
    }
}

/// The tools that the demo exposes: those whose subcommand is allowlisted,
/// in the order of the list.
pub open spec fn allowed_tools(tools: Seq<Tool>) -> Seq<Tool> {
    tools.filter(|t: Tool| is_allowed(t.subcommand@))
}

/// `d` is what [`DemoTool::new`] makes of `d.inner`.
pub open spec fn is_demo_of_inner(d: DemoTool) -> bool {
    &&& d.takes_repo == declares_repo(d.inner.schema@)
    &&& d.public_schema@ == public_schema(d.inner.schema@)
}

/// The error for a tool list without an allowlisted tool.
pub open spec fn no_tool_error() -> Seq<char> {
    "no allowlisted tool in the ecp tool list"@
}

/// The allowlisted subset of a tool list, in its order, each with its
/// public schema; an error where none is allowlisted.
pub fn demo_tools(tools: Vec<Tool>) -> (r: Result<Vec<DemoTool>, String>)
    ensures
        match r {
            Ok(demo) => {
                &&& demo@.len() > 0
                &&& demo@.map_values(|d: DemoTool| d.inner) == allowed_tools(tools@)
                &&& forall|i: int| 0 <= i < demo@.len() ==> is_demo_of_inner(#[trigger] demo@[i])
                &&& forall|i: int| 0 <= i < demo@.len() ==> is_allowed(#[trigger] demo@[i].inner.subcommand@)
            },
            Err(e) => allowed_tools(tools@).len() == 0 && e@ == no_tool_error(),
        },
{
    broadcast use vstd::std_specs::vec::axiom_spec_into_iter;
    let ghost all = tools@;
    let mut demo: Vec<DemoTool> = Vec::new();
    for t in it: tools.into_iter()
        invariant
            it.seq() == all,
            demo@.map_values(|d: DemoTool| d.inner) == allowed_tools(all.take(it.index() as int)),
            forall|i: int| 0 <= i < demo@.len() ==> is_demo_of_inner(#[trigger] demo@[i]),
    {
        let ghost i = it.index() as int;
        let ghost before = demo@;
        assert(all.take(i + 1) == all.take(i).push(t));
        proof {
            all.take(i).lemma_filter_push(t, |t: Tool| is_allowed(t.subcommand@));
        }
        if allowed_subcommand(t.subcommand.as_str()) {
            let d = DemoTool::new(t);
            demo.push(d);
            assert(demo@.map_values(|d: DemoTool| d.inner) =~= before.map_values(|d: DemoTool| d.inner).push(
                d.inner,
            ));
        }
    }
    assert(all.take(all.len() as int) == all);
    if demo.len() == 0 {
        return Err(owned("no allowlisted tool in the ecp tool list"));
    }
    assert forall|i: int| 0 <= i < demo@.len() implies is_allowed(#[trigger] demo@[i].inner.subcommand@) by {
        assert(demo@.map_values(|d: DemoTool| d.inner)[i] == demo@[i].inner);
        all.lemma_filter_pred(|t: Tool| is_allowed(t.subcommand@), i);
    }
    Ok(demo)
}

} // verus!
