//! From a tool call's JSON arguments to the argv tokens that follow the
//! subcommand, the way the MCP server builds them.

use vstd::prelude::*;
use crate::json::{Json, JsonV, debug_list, debug_list_text, debug_str, entries_view, find_key, lookup, str_debug, value_as_string, without_key};
use crate::text::{flag_of, flag_token_name, kebab, owned, str_eq, to_kebab};
use crate::tools::{Tool, is_reserved, reserved_name};

verus! {

/// The model of a list of strings.
pub open spec fn strings_view(v: Seq<String>) -> Seq<Seq<char>> {
    v.map_values(|s: String| s@)
}

proof fn lemma_strings_view_push(s: Seq<String>, x: String)
    ensures
        strings_view(s.push(x)) == strings_view(s).push(x@),
{
    assert(strings_view(s.push(x)) =~= strings_view(s).push(x@));
}

/// The model of an argv or an error message.
pub open spec fn argv_result_view(r: Result<Vec<String>, String>) -> Result<Seq<Seq<char>>, Seq<char>> {
    match r {
        Ok(v) => Ok(strings_view(v@)),
        Err(e) => Err(e@),
    }
}

/// `--` and the kebab-case spelling of a key.
pub open spec fn flag_name(key: Seq<char>) -> Seq<char> {
    "--"@ + kebab(key)
}

/// What a positional id adds to argv: the text of the scalar that the
/// arguments hold under it, if they hold one.
pub open spec fn positional_piece(entries: Seq<(Seq<char>, JsonV)>, id: Seq<char>) -> Seq<Seq<char>> {
    match lookup(entries, id) {
        Some(v) => match v.scalar_text() {
            Some(t) => seq![t],
            None => Seq::empty(),
        },
        None => Seq::empty(),
    }
}

/// The positional part of argv: one token per positional id that the
/// arguments hold a scalar for, in declared order.
pub open spec fn positional_argv(entries: Seq<(Seq<char>, JsonV)>, ids: Seq<Seq<char>>) -> Seq<Seq<char>>
    decreases ids.len(),
{
    if ids.len() == 0 {
        Seq::empty()
    } else {
        positional_argv(entries, ids.drop_last()) + positional_piece(entries, ids.last())
    }
}

/// The error for an argument whose value is an array or an object.
pub open spec fn nested_error(key: Seq<char>) -> Seq<char> {
    "nested array/object args not supported (key="@ + key + ")"@
}

/// What one entry that is not a positional adds to argv: nothing for null;
/// for a boolean in `flag_args` the bare flag when true and nothing when
/// false; for any other boolean, a string or a number the flag and the
/// value's text; an array or an object is refused.
pub open spec fn flag_piece(key: Seq<char>, value: JsonV, flag_args: Seq<Seq<char>>) -> Result<Seq<Seq<char>>, Seq<char>> {
    let flag = flag_name(key);
    match value {
        JsonV::Null => Ok(Seq::empty()),
        JsonV::Bool(b) => if flag_args.contains(key) {
            if b { Ok(seq![flag]) } else { Ok(Seq::empty()) }
        } else {
            Ok(seq![flag, crate::json::bool_text(b)])
        },
        JsonV::Str(s) => Ok(seq![flag, s]),
        JsonV::Number(n) => Ok(seq![flag, n]),
        JsonV::Array(_) => Err(nested_error(key)),
        JsonV::Object(_) => Err(nested_error(key)),
    }
}

/// The flag part of argv, entry by entry in the object's order; the first
/// refused entry makes it an error.
pub open spec fn flags_argv(
    entries: Seq<(Seq<char>, JsonV)>,
    flag_args: Seq<Seq<char>>,
    positional: Seq<Seq<char>>,
) -> Result<Seq<Seq<char>>, Seq<char>>
    decreases entries.len(),
{
    if entries.len() == 0 {
        Ok(Seq::empty())
    } else {
        match flags_argv(entries.drop_last(), flag_args, positional) {
            Err(e) => Err(e),
            Ok(prev) => {
                let (key, value) = entries.last();
                if positional.contains(key) {
                    Ok(prev)
                } else {
                    match flag_piece(key, value, flag_args) {
                        Err(e) => Err(e),
                        Ok(piece) => Ok(prev + piece),
                    }
                }
            },
        }
    }
}

/// Once a prefix of the entries is refused, every longer prefix is refused
/// with the same error.
proof fn lemma_flags_error_sticks(
    es: Seq<(Seq<char>, JsonV)>,
    flags: Seq<Seq<char>>,
    pos: Seq<Seq<char>>,
    n: int,
    m: int,
)
    requires
        0 <= n <= m <= es.len(),
        flags_argv(es.take(n), flags, pos) is Err,
    ensures
        flags_argv(es.take(m), flags, pos) == flags_argv(es.take(n), flags, pos),
    decreases m - n,
{
    if m > n {
        lemma_flags_error_sticks(es, flags, pos, n, m - 1);
        assert(es.take(m).drop_last() == es.take(m - 1));
    }
}

/// The error for arguments that are not an object.
pub open spec fn not_object_error(args: JsonV) -> Seq<char> {
    "expected a JSON object for args, got "@ + args.kind_name()
}

/// Positionals first, in declared order; then the flags.
pub open spec fn args_argv(args: JsonV, flag_args: Seq<Seq<char>>, positional: Seq<Seq<char>>) -> Result<
    Seq<Seq<char>>,
    Seq<char>,
> {
    match args {
        JsonV::Object(entries) => match flags_argv(entries, flag_args, positional) {
            Ok(flags) => Ok(positional_argv(entries, positional) + flags),
            Err(e) => Err(e),
        },
        _ => Err(not_object_error(args)),
    }
}

/// Whether `list` holds `s`.
pub fn contains_str(list: &[String], s: &str) -> (r: bool)
    ensures
        r == strings_view(list@).contains(s@),
{
    let mut i: usize = 0;
    while i < list.len()
        invariant
            i <= list.len(),
            forall|j: int| 0 <= j < i ==> #[trigger] list@[j]@ != s@,
        decreases list.len() - i,
    {
        if str_eq(list[i].as_str(), s) {
            assert(strings_view(list@)[i as int] == s@);
            return true;
        }
        i = i + 1;
    }
    assert(!strings_view(list@).contains(s@)) by {
        if strings_view(list@).contains(s@) {
            let k = choose|k: int| 0 <= k < list@.len() && strings_view(list@)[k] == s@;
            assert(list@[k]@ != s@);
        }
    }
    false
}

/// `--` and the kebab-case spelling of `key`.
pub fn flag_for(key: &str) -> (r: String)
    ensures
        r@ == flag_name(key@),
{
    let mut flag = owned("--");
    let k = to_kebab(key);
    flag.append(k.as_str());
    flag
}

/// Positionals first, in declared order; then one `--flag [value]` per
/// remaining key. A boolean in `flag_args` is a bare flag when true and
/// absent when false; any other boolean is passed as `--flag true|false`.
pub fn json_to_argv(args: &Json, flag_args: &[String], positional_args: &[String]) -> (r: Result<Vec<String>, String>)
    ensures
        argv_result_view(r) == args_argv(args@, strings_view(flag_args@), strings_view(positional_args@)),
{
    let entries = match args {
        Json::Object(entries) => entries,
        _ => {
            let mut msg = owned("expected a JSON object for args, got ");
            msg.append(crate::json::kind_name(args));
            return Err(msg);
        },
    };
    let ghost es = entries_view(*entries);
    let ghost flags = strings_view(flag_args@);
    let ghost pos = strings_view(positional_args@);
    let mut out: Vec<String> = Vec::new();
    let mut i: usize = 0;
    while i < positional_args.len()
        invariant
            es == entries_view(*entries),
            pos == strings_view(positional_args@),
            i <= positional_args.len(),
            strings_view(out@) == positional_argv(es, pos.take(i as int)),
        decreases positional_args.len() - i,
    {
        assert(pos.take(i + 1).drop_last() == pos.take(i as int));
        assert(pos.take(i + 1).last() == positional_args@[i as int]@);
        let ghost before = out@;
        match find_key(entries, positional_args[i].as_str()) {
            Some(k) => match value_as_string(&entries[k].1) {
                Some(s) => {
                    out.push(s);
                    assert(strings_view(out@) == strings_view(before) + seq![s@]);
                },
                None => {},
            },
            None => {},
        }
        i = i + 1;
    }
    assert(pos.take(positional_args.len() as int) == pos);
    let ghost positional_part = strings_view(out@);
    let mut j: usize = 0;
    while j < entries.len()
        invariant
            es == entries_view(*entries),
            flags == strings_view(flag_args@),
            pos == strings_view(positional_args@),
            positional_part == positional_argv(es, pos),
            args@ == JsonV::Object(es),
            j <= entries.len(),
            flags_argv(es.take(j as int), flags, pos) is Ok,
            strings_view(out@) == positional_part + flags_argv(es.take(j as int), flags, pos)->Ok_0,
        decreases entries.len() - j,
    {
        assert(es.take(j + 1).drop_last() == es.take(j as int));
        assert(es.take(j + 1).last() == es[j as int]);
        assert(es[j as int] == (entries@[j as int].0@, entries@[j as int].1@));
        let key = entries[j].0.as_str();
        let ghost before = out@;
        if contains_str(positional_args, key) {
        } else {
            let flag = flag_for(key);
            match &entries[j].1 {
                Json::Null => {},
                Json::Bool(b) => {
                    if contains_str(flag_args, key) {
                        if *b {
                            out.push(flag);
                            assert(strings_view(out@) == strings_view(before) + seq![flag@]);
                        }
                    } else {
                        let t = if *b { owned("true") } else { owned("false") };
                        out.push(flag);
                        out.push(t);
                        assert(strings_view(out@) == strings_view(before) + seq![flag@, t@]);
                    }
                },
                Json::Str(s) => {
                    out.push(flag);
                    out.push(s.clone());
                    assert(strings_view(out@) == strings_view(before) + seq![flag@, s@]);
                },
                Json::Number(n) => {
                    out.push(flag);
                    out.push(n.clone());
                    assert(strings_view(out@) == strings_view(before) + seq![flag@, n@]);
                },
                _ => {
                    let mut msg = owned("nested array/object args not supported (key=");
                    msg.append(key);
                    msg.append(")");
                    proof {
                        lemma_flags_error_sticks(es, flags, pos, j + 1, es.len() as int);
                        assert(es.take(es.len() as int) == es);
                    }
                    return Err(msg);
                },
            }
        }
        j = j + 1;
    }
    assert(es.take(entries.len() as int) == es);
    Ok(out)
}


/// The reserved name that a token spells as a flag, if it spells one.
pub open spec fn reserved_flag(token: Seq<char>) -> Option<Seq<char>> {
    match flag_of(token) {
        Some(n) => if is_reserved(n) { Some(n) } else { None },
        None => None,
    }
}

/// The reserved name spelled by the first token of `argv` that spells one.
pub open spec fn first_reserved(argv: Seq<Seq<char>>) -> Option<Seq<char>>
    decreases argv.len(),
{
    if argv.len() == 0 {
        None
    } else {
        match first_reserved(argv.drop_last()) {
            Some(n) => Some(n),
            None => reserved_flag(argv.last()),
        }
    }
}

proof fn lemma_first_reserved_sticks(argv: Seq<Seq<char>>, n: int, m: int)
    requires
        0 <= n <= m <= argv.len(),
        first_reserved(argv.take(n)) is Some,
    ensures
        first_reserved(argv.take(m)) == first_reserved(argv.take(n)),
    decreases m - n,
{
    if m > n {
        lemma_first_reserved_sticks(argv, n, m - 1);
        assert(argv.take(m).drop_last() == argv.take(m - 1));
    }
}

/// The first reserved flag among argv tokens, matched the way clap parses
/// them: `--graph`, `--graph=…`. Checked on the built argv rather than
/// on JSON keys, so key spelling (`Graph` → `--graph`) and a positional
/// value that starts with `--` are both caught.
pub fn reserved_token(argv: &[String]) -> (r: Option<&'static str>)
    ensures
        match r {
            Some(n) => first_reserved(strings_view(argv@)) == Some(n@),
            None => first_reserved(strings_view(argv@)) is None,
        },
{
    let ghost toks = strings_view(argv@);
    let mut i: usize = 0;
    while i < argv.len()
        invariant
            toks == strings_view(argv@),
            i <= argv.len(),
            first_reserved(toks.take(i as int)) is None,
        decreases argv.len() - i,
    {
        assert(toks.take(i + 1).drop_last() == toks.take(i as int));
        assert(toks.take(i + 1).last() == argv@[i as int]@);
        match flag_token_name(argv[i].as_str()) {
            Some(name) => match reserved_name(name.as_str()) {
                Some(r) => {
                    proof {
                        lemma_first_reserved_sticks(toks, i + 1, toks.len() as int);
                        assert(toks.take(toks.len() as int) == toks);
                    }
                    return Some(r);
                },
                None => {},
            },
            None => {},
        }
        i = i + 1;
    }
    assert(toks.take(argv.len() as int) == toks);
    None
}


/// The model of an optional string.
pub open spec fn opt_view(o: Option<String>) -> Option<Seq<char>> {
    match o {
        Some(s) => Some(s@),
        None => None,
    }
}

/// The values that the schema's `enum` lists for the property `key`, where
/// it lists them in an array.
pub open spec fn enum_values(schema: JsonV, key: Seq<char>) -> Option<Seq<JsonV>> {
    match schema.get("properties"@) {
        Some(props) => match props.get(key) {
            Some(prop) => match prop.get("enum"@) {
                Some(JsonV::Array(values)) => Some(values),
                _ => None,
            },
            None => None,
        },
        None => None,
    }
}

/// One of `allowed` is the string `val`.
pub open spec fn admits(allowed: Seq<JsonV>, val: Seq<char>) -> bool {
    exists|i: int| 0 <= i < allowed.len() && allowed[i].as_str() == Some(val)
}

/// The error for a router call whose arguments are not an object.
pub open spec fn router_args_error(tool_name: Seq<char>) -> Seq<char> {
    "expected a JSON object for args of "@ + tool_name
}

/// The error for a router call without its discriminator.
pub open spec fn missing_error(key: Seq<char>) -> Seq<char> {
    "missing required `"@ + key + "` discriminator"@
}

/// The error for a discriminator that the schema's `enum` does not list.
pub open spec fn not_allowed_error(key: Seq<char>, allowed: Seq<JsonV>, val: Seq<char>) -> Seq<char> {
    "`"@ + key + "` must be one of "@ + debug_list(allowed) + ", got "@ + debug_str(val)
}

/// For a router tool (one with a `subcmd_arg`), the discriminator lifted
/// out of the arguments, checked against the schema's `enum` where there is
/// one, with the remaining arguments; any other tool keeps its arguments.
pub open spec fn peel(
    tool_name: Seq<char>,
    schema: JsonV,
    subcmd_arg: Option<Seq<char>>,
    args: JsonV,
) -> Result<(Option<Seq<char>>, JsonV), Seq<char>> {
    match subcmd_arg {
        None => Ok((None, args)),
        Some(key) => match args {
            JsonV::Object(entries) => {
                let val = match lookup(entries, key) {
                    Some(v) => v.as_str(),
                    None => None,
                };
                match val {
                    None => Err(missing_error(key)),
                    Some(val) => {
                        if enum_values(schema, key) is Some && !admits(enum_values(schema, key)->Some_0, val) {
                            Err(not_allowed_error(key, enum_values(schema, key)->Some_0, val))
                        } else {
                            Ok((Some(val), JsonV::Object(without_key(entries, key))))
                        }
                    },
                }
            },
            _ => Err(router_args_error(tool_name)),
        },
    }
}

/// The model of what [`peel_subcmd`] returns.
pub open spec fn peel_view(r: Result<(Option<String>, Json), String>) -> Result<(Option<Seq<char>>, JsonV), Seq<char>> {
    match r {
        Ok((p, rest)) => Ok((opt_view(p), rest@)),
        Err(e) => Err(e@),
    }
}

/// An object's entries without those under `key`.
fn remove_key(entries: &Vec<(String, Json)>, key: &str) -> (r: Vec<(String, Json)>)
    ensures
        entries_view(r) == without_key(entries_view(*entries), key@),
{
    let ghost es = entries_view(*entries);
    let mut out: Vec<(String, Json)> = Vec::new();
    let mut i: usize = 0;
    while i < entries.len()
        invariant
            es == entries_view(*entries),
            i <= entries.len(),
            entries_view(out) == without_key(es.take(i as int), key@),
        decreases entries.len() - i,
    {
        let ghost before = entries_view(out);
        assert(es.take(i + 1) == es.take(i as int).push(es[i as int]));
        assert(es[i as int] == (entries@[i as int].0@, entries@[i as int].1@));
        proof {
            es.take(i as int).lemma_filter_push(es[i as int], |e: (Seq<char>, JsonV)| e.0 != key@);
        }
        if !str_eq(entries[i].0.as_str(), key) {
            let k = entries[i].0.clone();
            let v = entries[i].1.clone();
            out.push((k, v));
            assert(entries_view(out) =~= before.push(es[i as int]));
        }
        i = i + 1;
    }
    assert(es.take(entries.len() as int) == es);
    out
}

/// The values of the schema's `enum` for the property `key`.
fn enum_values_of<'a>(schema: &'a Json, key: &str) -> (r: Option<&'a Vec<Json>>)
    ensures
        match r {
            Some(values) => enum_values(schema@, key@) == Some(Json::Array(*values)@->Array_0),
            None => enum_values(schema@, key@) is None,
        },
{
    match schema.get("properties") {
        Some(props) => match props.get(key) {
            Some(prop) => match prop.get("enum") {
                Some(Json::Array(values)) => Some(values),
                _ => None,
            },
            None => None,
        },
        None => None,
    }
}

/// Whether one of `allowed` is the string `val`.
fn admits_exec(allowed: &Vec<Json>, val: &str) -> (r: bool)
    ensures
        r == admits(Json::Array(*allowed)@->Array_0, val@),
{
    let ghost xs = Json::Array(*allowed)@->Array_0;
    let mut i: usize = 0;
    while i < allowed.len()
        invariant
            xs == Json::Array(*allowed)@->Array_0,
            i <= allowed.len(),
            forall|j: int| 0 <= j < i ==> #[trigger] xs[j].as_str() != Some(val@),
        decreases allowed.len() - i,
    {
        assert(xs[i as int] == allowed@[i as int]@);
        match allowed[i].as_str() {
            Some(s) => {
                if str_eq(s, val) {
                    return true;
                }
            },
            None => {},
        }
        i = i + 1;
    }
    false
}

/// For a router tool, lift `subcmd_arg` out of the args, check it against
/// the schema's enum, and return it with the remaining args.
pub fn peel_subcmd(tool: &Tool, args: &Json) -> (r: Result<(Option<String>, Json), String>)
    ensures
        peel_view(r) == peel(tool.name@, tool.schema@, opt_view(tool.subcmd_arg), args@),
{
    let key = match &tool.subcmd_arg {
        None => return Ok((None, args.clone())),
        Some(k) => k.as_str(),
    };
    let entries = match args {
        Json::Object(entries) => entries,
        _ => {
            let mut msg = owned("expected a JSON object for args of ");
            msg.append(tool.name.as_str());
            return Err(msg);
        },
    };
    let ghost es = entries_view(*entries);
    assert(args@ == JsonV::Object(es));
    let val: String = match find_key(entries, key) {
        Some(i) => match entries[i].1.as_str() {
            Some(s) => owned(s),
            None => {
                let mut msg = owned("missing required `");
                msg.append(key);
                msg.append("` discriminator");
                return Err(msg);
            },
        },
        None => {
            let mut msg = owned("missing required `");
            msg.append(key);
            msg.append("` discriminator");
            return Err(msg);
        },
    };
    match enum_values_of(&tool.schema, key) {
        Some(allowed) => {
            if !admits_exec(allowed, val.as_str()) {
                let mut msg = owned("`");
                msg.append(key);
                msg.append("` must be one of ");
                let listed = debug_list_text(allowed);
                msg.append(listed.as_str());
                msg.append(", got ");
                let got = str_debug(val.as_str());
                msg.append(got.as_str());
                assert(Json::Array(*allowed)@->Array_0 =~= allowed@.map_values(|v: Json| v@));
                return Err(msg);
            }
        },
        None => {},
    }
    let filtered = remove_key(entries, key);
    let rest = Json::Object(filtered);
    assert(rest@->Object_0 == entries_view(filtered));
    Ok((Some(val), rest))
}

/// The argv of a tool call: the peeled sub-subcommand (if the tool routes
/// one), the tool's fixed prefix, then the JSON-derived args.
pub open spec fn tool_argv(tool: Tool, args: JsonV) -> Result<Seq<Seq<char>>, Seq<char>> {
    match peel(tool.name@, tool.schema@, opt_view(tool.subcmd_arg), args) {
        Err(e) => Err(e),
        Ok((peeled, rest)) => match args_argv(
            rest,
            strings_view(tool.flag_args@),
            strings_view(tool.positional_args@),
        ) {
            Err(e) => Err(e),
            Ok(json_argv) => Ok(
                match peeled {
                    Some(p) => seq![p],
                    None => Seq::empty(),
                } + strings_view(tool.prefix_args@) + json_argv,
            ),
        },
    }
}

/// Every argv token after `<subcommand>`: the peeled sub-subcommand (if the
/// tool routes one), the tool's fixed prefix, then the JSON-derived args.
pub fn build_argv(tool: &Tool, args: &Json) -> (r: Result<Vec<String>, String>)
    ensures
        argv_result_view(r) == tool_argv(*tool, args@),
{
    let (peeled, json_args) = match peel_subcmd(tool, args) {
        Ok(p) => p,
        Err(e) => return Err(e),
    };
    let json_argv = match json_to_argv(&json_args, tool.flag_args.as_slice(), tool.positional_args.as_slice()) {
        Ok(v) => v,
        Err(e) => return Err(e),
    };
    let ghost peeled_view = opt_view(peeled);
    let mut out: Vec<String> = Vec::new();
    match peeled {
        Some(p) => {
            out.push(p);
            assert(strings_view(out@) =~= seq![p@]);
        },
        None => {
            assert(strings_view(out@) =~= Seq::<Seq<char>>::empty());
        },
    }
    let ghost head = strings_view(out@);
    assert(head == match peeled_view {
        Some(p) => seq![p],
        None => Seq::<Seq<char>>::empty(),
    });
    let mut i: usize = 0;
    while i < tool.prefix_args.len()
        invariant
            i <= tool.prefix_args.len(),
            strings_view(out@) == head + strings_view(tool.prefix_args@).take(i as int),
        decreases tool.prefix_args.len() - i,
    {
        let ghost before = out@;
        out.push(tool.prefix_args[i].clone());
        proof {
            lemma_strings_view_push(before, tool.prefix_args@[i as int]);
        }
        assert(strings_view(tool.prefix_args@).take(i + 1) =~= strings_view(tool.prefix_args@).take(
            i as int,
        ).push(tool.prefix_args@[i as int]@));
        assert(strings_view(out@) =~= head + strings_view(tool.prefix_args@).take(i + 1));
        i = i + 1;
    }
    assert(strings_view(tool.prefix_args@).take(tool.prefix_args.len() as int) == strings_view(tool.prefix_args@));
    let ghost mid = strings_view(out@);
    let mut j: usize = 0;
    while j < json_argv.len()
        invariant
            j <= json_argv.len(),
            strings_view(out@) == mid + strings_view(json_argv@).take(j as int),
        decreases json_argv.len() - j,
    {
        let ghost before = out@;
        out.push(json_argv[j].clone());
        proof {
            lemma_strings_view_push(before, json_argv@[j as int]);
        }
        assert(strings_view(json_argv@).take(j + 1) =~= strings_view(json_argv@).take(j as int).push(
            json_argv@[j as int]@,
        ));
        assert(strings_view(out@) =~= mid + strings_view(json_argv@).take(j + 1));
        j = j + 1;
    }
    assert(strings_view(json_argv@).take(json_argv.len() as int) == strings_view(json_argv@));
    Ok(out)
}

} // verus!
