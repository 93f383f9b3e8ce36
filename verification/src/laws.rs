//! What holds of the library as a whole: the guard on a built argv, the
//! public schema, and what a call's arguments make of argv.

use vstd::prelude::*;
use crate::argv::{
    admits, args_argv, enum_values, first_reserved, flag_name, flag_piece, flags_argv, opt_view, peel, positional_argv, positional_piece,
    reserved_flag, strings_view, tool_argv,
};
use crate::json::{JsonV, lemma_lookup_push, lookup, without_key};
use crate::spawn::passes_to_ecp;
use crate::text::{before_eq, flag_of, kebab, kebab_piece, lemma_before_eq};
use crate::tools::{
    RESERVED_ARGS, Tool, declares_repo, is_reserved, names_reserved, public_member, public_members, public_names,
    public_schema,
};

verus! {

/// The guard passes an argv exactly when none of its tokens spells a
/// reserved flag; when it refuses one, it names the flag that the first such
/// token spells.
pub proof fn law_guard_names_first_reserved_token(argv: Seq<Seq<char>>)
    ensures
        first_reserved(argv) is None <==> forall|i: int| 0 <= i < argv.len() ==> #[trigger] reserved_flag(argv[i]) is None,
        first_reserved(argv) matches Some(n) ==> exists|i: int|
            0 <= i < argv.len() && reserved_flag(argv[i]) == Some(n) && forall|j: int|
                0 <= j < i ==> #[trigger] reserved_flag(argv[j]) is None,
    decreases argv.len(),
{
    if argv.len() > 0 {
        let init = argv.drop_last();
        law_guard_names_first_reserved_token(init);
        assert forall|i: int| 0 <= i < init.len() implies init[i] == argv[i] by {}
        if first_reserved(init) is None {
            assert(forall|i: int| 0 <= i < init.len() ==> #[trigger] reserved_flag(init[i]) is None);
        } else {
            let n = first_reserved(init)->Some_0;
            let i = choose|i: int|
                0 <= i < init.len() && reserved_flag(init[i]) == Some(n) && forall|j: int|
                    0 <= j < i ==> #[trigger] reserved_flag(init[j]) is None;
            assert(reserved_flag(argv[i]) == Some(n));
            assert forall|j: int| 0 <= j < i implies #[trigger] reserved_flag(argv[j]) is None by {
                assert(reserved_flag(init[j]) is None);
            }
        }
    }
}

/// The members of an object that stay public are looked up as before,
/// but a reserved name finds nothing.
pub proof fn lemma_lookup_public_members(props: Seq<(Seq<char>, JsonV)>, key: Seq<char>)
    ensures
        lookup(public_members(props), key) == if is_reserved(key) {
            None::<JsonV>
        } else {
            lookup(props, key)
        },
    decreases props.len(),
{
    if props.len() == 0 {
        assert(public_members(props) =~= props) by {
            reveal(Seq::filter);
        }
        assert forall|k: int| !crate::json::is_first_key(props, key, k) by {}
    } else {
        let init = props.drop_last();
        let e = props.last();
        lemma_lookup_public_members(init, key);
        assert(props == init.push(e));
        init.lemma_filter_push(e, |e: (Seq<char>, JsonV)| !is_reserved(e.0));
        lemma_lookup_push(init, e, key);
        if !is_reserved(e.0) {
            lemma_lookup_push(public_members(init), e, key);
        }
    }
}

/// A member of the public schema is found as the member of the schema it
/// comes from, made public.
pub proof fn lemma_lookup_public_schema(entries: Seq<(Seq<char>, JsonV)>, key: Seq<char>)
    ensures
        public_schema(JsonV::Object(entries)) is Object,
        lookup(public_schema(JsonV::Object(entries))->Object_0, key) == match lookup(entries, key) {
            Some(v) => Some(public_member((key, v)).1),
            None => None,
        },
    decreases entries.len(),
{
    let out = public_schema(JsonV::Object(entries))->Object_0;
    if entries.len() == 0 {
        assert forall|k: int| !crate::json::is_first_key(entries, key, k) by {}
        assert forall|k: int| !crate::json::is_first_key(out, key, k) by {}
    } else {
        let init = entries.drop_last();
        let e = entries.last();
        lemma_lookup_public_schema(init, key);
        let out_init = public_schema(JsonV::Object(init))->Object_0;
        assert(out =~= out_init.push(public_member(e)));
        assert(entries == init.push(e));
        lemma_lookup_push(init, e, key);
        lemma_lookup_push(out_init, public_member(e), key);
    }
}

/// The public schema of a tool holds no reserved arg in `properties` and
/// none in `required`, keeps every other property and required name as it
/// was, and never declares `repo`.
pub proof fn law_public_schema_drops_reserved_args(schema: JsonV, key: Seq<char>, name: JsonV)
    ensures
        !declares_repo(public_schema(schema)),
        schema.get("properties"@) matches Some(JsonV::Object(props)) ==> {
            &&& public_schema(schema).get("properties"@) == Some(JsonV::Object(public_members(props)))
            &&& lookup(public_members(props), key) == if is_reserved(key) {
                None::<JsonV>
            } else {
                lookup(props, key)
            }
        },
        schema.get("required"@) matches Some(JsonV::Array(items)) ==> {
            &&& public_schema(schema).get("required"@) == Some(JsonV::Array(public_names(items)))
            &&& public_names(items).contains(name) <==> items.contains(name) && !names_reserved(name)
        },
{
    reveal_strlit("properties");
    reveal_strlit("required");
    reveal_strlit("repo");
    assert("properties"@.len() != "required"@.len());
    assert(is_reserved("repo"@)) by {
        assert(crate::tools::RESERVED_ARGS@[0]@ == "repo"@);
    }
    if let JsonV::Object(entries) = schema {
        lemma_lookup_public_schema(entries, "properties"@);
        lemma_lookup_public_schema(entries, "required"@);
        if let Some(JsonV::Object(props)) = schema.get("properties"@) {
            lemma_lookup_public_members(props, key);
            lemma_lookup_public_members(props, "repo"@);
        }
        if let Some(JsonV::Array(items)) = schema.get("required"@) {
            broadcast use vstd::seq_lib::group_filter_ensures;
            if items.contains(name) && !names_reserved(name) {
                let i = choose|i: int| 0 <= i < items.len() && items[i] == name;
                items.lemma_filter_contains(|v: JsonV| !names_reserved(v), i);
            }
            if public_names(items).contains(name) {
                items.lemma_filter_contains_rev(|v: JsonV| !names_reserved(v), name);
                let i = choose|i: int| 0 <= i < public_names(items).len() && public_names(items)[i] == name;
                items.lemma_filter_pred(|v: JsonV| !names_reserved(v), i);
            }
        }
    }
}

/// Taking the entries under one key out leaves every other key's lookup as
/// it was.
pub proof fn lemma_lookup_without_key(entries: Seq<(Seq<char>, JsonV)>, key: Seq<char>, other: Seq<char>)
    requires
        other != key,
    ensures
        lookup(without_key(entries, key), other) == lookup(entries, other),
    decreases entries.len(),
{
    if entries.len() == 0 {
        assert(without_key(entries, key) =~= entries) by {
            reveal(Seq::filter);
        }
        assert forall|k: int| !crate::json::is_first_key(entries, other, k) by {}
    } else {
        let init = entries.drop_last();
        let e = entries.last();
        lemma_lookup_without_key(init, key, other);
        assert(entries == init.push(e));
        assert(without_key(entries, key) == if e.0 != key {
            without_key(init, key).push(e)
        } else {
            without_key(init, key)
        }) by {
            reveal(Seq::filter);
        }
        lemma_lookup_push(init, e, other);
        if e.0 != key {
            lemma_lookup_push(without_key(init, key), e, other);
        }
    }
}

/// A reserved name holds no `=`, so `--` and the name spell that reserved flag.
pub proof fn lemma_reserved_flag_token(n: Seq<char>)
    requires
        is_reserved(n),
    ensures
        reserved_flag("--"@ + n) == Some(n),
{
    reveal_strlit("repo");
    reveal_strlit("graph");
    reveal_strlit("batch");
    reveal_strlit("--");
    let k = choose|k: int| 0 <= k < RESERVED_ARGS@.len() && RESERVED_ARGS@[k]@ == n;
    assert(RESERVED_ARGS@[0]@ == "repo"@);
    assert(RESERVED_ARGS@[1]@ == "graph"@);
    assert(RESERVED_ARGS@[2]@ == "batch"@);
    assert(forall|j: int| 0 <= j < n.len() ==> n[j] != '=');
    let t = "--"@ + n;
    assert(t.skip(2) =~= n);
    lemma_before_eq(n, n.len() as int);
    assert(n.take(n.len() as int) =~= n);
}

/// Each entry that becomes a flag puts its flag into the flag part of argv.
pub proof fn lemma_flags_emit(
    entries: Seq<(Seq<char>, JsonV)>,
    flags: Seq<Seq<char>>,
    positional: Seq<Seq<char>>,
    j: int,
)
    requires
        flags_argv(entries, flags, positional) is Ok,
        0 <= j < entries.len(),
        !positional.contains(entries[j].0),
        flag_piece(entries[j].0, entries[j].1, flags) matches Ok(p) && p.len() > 0,
    ensures
        flags_argv(entries, flags, positional)->Ok_0.contains(flag_name(entries[j].0)),
    decreases entries.len(),
{
    let init = entries.drop_last();
    let out = flags_argv(entries, flags, positional)->Ok_0;
    let prev = flags_argv(init, flags, positional)->Ok_0;
    if j < entries.len() - 1 {
        assert(init[j] == entries[j]);
        lemma_flags_emit(init, flags, positional, j);
        let k = choose|k: int| 0 <= k < prev.len() && prev[k] == flag_name(entries[j].0);
        assert(out[k] == prev[k]);
    } else {
        let p = flag_piece(entries[j].0, entries[j].1, flags)->Ok_0;
        assert(p[0] == flag_name(entries[j].0));
        assert(out[prev.len() as int] == p[0]);
    }
}

/// Each positional id that the arguments hold a scalar for puts that
/// scalar's text into the positional part of argv.
pub proof fn lemma_positional_emit(entries: Seq<(Seq<char>, JsonV)>, ids: Seq<Seq<char>>, i: int)
    requires
        0 <= i < ids.len(),
        positional_piece(entries, ids[i]).len() > 0,
    ensures
        positional_argv(entries, ids).contains(positional_piece(entries, ids[i])[0]),
    decreases ids.len(),
{
    let init = ids.drop_last();
    let prev = positional_argv(entries, init);
    let out = positional_argv(entries, ids);
    if i < ids.len() - 1 {
        assert(init[i] == ids[i]);
        lemma_positional_emit(entries, init, i);
        let k = choose|k: int| 0 <= k < prev.len() && prev[k] == positional_piece(entries, ids[i])[0];
        assert(out[k] == prev[k]);
    } else {
        assert(out[prev.len() as int] == positional_piece(entries, ids[i])[0]);
    }
}

/// A token of argv that spells a reserved flag makes the guard refuse it.
pub proof fn lemma_guard_sees_token(argv: Seq<Seq<char>>, t: Seq<char>)
    requires
        argv.contains(t),
        reserved_flag(t) is Some,
    ensures
        first_reserved(argv) is Some,
{
    law_guard_names_first_reserved_token(argv);
    let i = choose|i: int| 0 <= i < argv.len() && argv[i] == t;
    assert(reserved_flag(argv[i]) is Some);
}

/// The value under `key` puts a flag into argv.
pub open spec fn becomes_flag(key: Seq<char>, v: JsonV, flags: Seq<Seq<char>>) -> bool {
    match flag_piece(key, v, flags) {
        Ok(p) => p.len() > 0,
        Err(_) => false,
    }
}

/// The value is a scalar whose text spells a reserved flag.
pub open spec fn spells_reserved_flag(v: JsonV) -> bool {
    match v.scalar_text() {
        Some(t) => reserved_flag(t) is Some,
        None => false,
    }
}

/// The guard sees a reserved arg however the call spells it. A key whose
/// kebab-case spelling is a reserved name (`graph`, `Graph`) and whose value
/// becomes a flag, or a positional whose value is itself a reserved flag
/// (`--graph=/etc/shadow`), puts a reserved flag into the argv built from it,
/// and [`crate::argv::reserved_token`] refuses the call.
pub proof fn law_guard_sees_spelled_reserved_args(tool: Tool, args: JsonV, key: Seq<char>)
    requires
        tool_argv(tool, args) is Ok,
        opt_view(tool.subcmd_arg) != Some(key),
        args.get(key) is Some,
        ({
            let v = args.get(key)->Some_0;
            ||| !strings_view(tool.positional_args@).contains(key) && is_reserved(kebab(key))
                && becomes_flag(key, v, strings_view(tool.flag_args@))
            ||| strings_view(tool.positional_args@).contains(key) && spells_reserved_flag(v)
        }),
    ensures
        first_reserved(tool_argv(tool, args)->Ok_0) is Some,
{
    let flags = strings_view(tool.flag_args@);
    let pos = strings_view(tool.positional_args@);
    let entries = args->Object_0;
    let peeled = peel(tool.name@, tool.schema@, opt_view(tool.subcmd_arg), args);
    let rest = peeled->Ok_0.1;
    let es = rest->Object_0;
    // The key is found among the entries that argv is built from.
    match opt_view(tool.subcmd_arg) {
        Some(d) => {
            lemma_lookup_without_key(entries, d, key);
        },
        None => {},
    }
    assert(rest == JsonV::Object(es));
    assert(lookup(es, key) == args.get(key));
    let v = args.get(key)->Some_0;
    let flags_part = flags_argv(es, flags, pos)->Ok_0;
    let positional_part = positional_argv(es, pos);
    let argv = tool_argv(tool, args)->Ok_0;
    let head = match peeled->Ok_0.0 {
        Some(p) => seq![p],
        None => Seq::<Seq<char>>::empty(),
    };
    assert(argv == head + strings_view(tool.prefix_args@) + (positional_part + flags_part));
    if !pos.contains(key) && is_reserved(kebab(key)) && becomes_flag(key, v, flags) {
        crate::json::lemma_first_key_index(es, key);
        let j = choose|j: int| crate::json::is_first_key(es, key, j);
        lemma_flags_emit(es, flags, pos, j);
        let t = flag_name(key);
        let k = choose|k: int| 0 <= k < flags_part.len() && flags_part[k] == t;
        assert(argv[argv.len() - flags_part.len() + k] == t);
        lemma_reserved_flag_token(kebab(key));
        lemma_guard_sees_token(argv, t);
    } else {
        let i = choose|i: int| 0 <= i < pos.len() && pos[i] == key;
        let t = v.scalar_text()->Some_0;
        assert(positional_piece(es, pos[i]) == seq![t]);
        lemma_positional_emit(es, pos, i);
        let k = choose|k: int| 0 <= k < positional_part.len() && positional_part[k] == t;
        assert(argv[head.len() + tool.prefix_args@.len() + k] == t);
        lemma_guard_sees_token(argv, t);
    }
}

/// Taking the entries under a key out leaves nothing under it.
pub proof fn lemma_without_key_drops(entries: Seq<(Seq<char>, JsonV)>, key: Seq<char>)
    ensures
        lookup(without_key(entries, key), key) is None,
    decreases entries.len(),
{
    if entries.len() == 0 {
        assert(without_key(entries, key) =~= entries) by {
            reveal(Seq::filter);
        }
        assert forall|k: int| !crate::json::is_first_key(entries, key, k) by {}
    } else {
        let init = entries.drop_last();
        let e = entries.last();
        lemma_without_key_drops(init, key);
        assert(without_key(entries, key) == if e.0 != key {
            without_key(init, key).push(e)
        } else {
            without_key(init, key)
        }) by {
            reveal(Seq::filter);
        }
        if e.0 != key {
            lemma_lookup_push(without_key(init, key), e, key);
        }
    }
}

/// A router call goes through only with a string discriminator, one that
/// the schema's `enum` lists where the schema lists values; the
/// discriminator leads, and it is gone from the arguments that become flags.
pub proof fn law_router_discriminator_is_checked_and_lifted(
    tool_name: Seq<char>,
    schema: JsonV,
    key: Seq<char>,
    args: JsonV,
)
    requires
        peel(tool_name, schema, Some(key), args) is Ok,
    ensures
        ({
            let (lifted, rest) = peel(tool_name, schema, Some(key), args)->Ok_0;
            &&& lifted is Some
            &&& args.get(key) matches Some(v) && v.as_str() == lifted
            &&& enum_values(schema, key) matches Some(allowed) ==> admits(allowed, lifted->Some_0)
            &&& rest.get(key) is None
        }),
{
    lemma_without_key_drops(args->Object_0, key);
}

/// One character on its own: an ASCII capital becomes its lower-case
/// letter, an underscore a hyphen, any other character stays.
pub proof fn law_kebab_of_one_char(c: char)
    ensures
        'A' <= c <= 'Z' ==> kebab(seq![c]) == seq![((c as int) + 32) as char],
        c == '_' ==> kebab(seq![c]) == seq!['-'],
        !('A' <= c <= 'Z') && c != '_' ==> kebab(seq![c]) == seq![c],
{
    assert(seq![c].drop_last() =~= Seq::<char>::empty());
    assert(kebab(Seq::<char>::empty()) == Seq::<char>::empty());
    assert(kebab(seq![c]) =~= kebab_piece(0, c));
}

/// Kebab case works piece by piece: the spelling of `a + b` is that of `a`
/// followed by that of `b`, with one hyphen between them where `b` begins
/// with a capital that does not lead the whole key.
pub proof fn law_kebab_of_concatenation(a: Seq<char>, b: Seq<char>)
    ensures
        kebab(a + b) == kebab(a) + (if a.len() > 0 && b.len() > 0 && 'A' <= b[0] <= 'Z' {
            seq!['-']
        } else {
            Seq::<char>::empty()
        }) + kebab(b),
    decreases b.len(),
{
    if b.len() == 0 {
        assert(a + b =~= a);
        assert(kebab(a) + Seq::<char>::empty() + kebab(b) =~= kebab(a));
    } else {
        let init = b.drop_last();
        let c = b.last();
        law_kebab_of_concatenation(a, init);
        assert((a + b).drop_last() =~= a + init);
        assert((a + b).last() == c);
        if init.len() == 0 {
            assert(kebab(init) == Seq::<char>::empty());
            assert(kebab(b) == kebab_piece(0, c));
            assert(a + init =~= a);
            if a.len() > 0 {
                assert(b[0] == c);
                assert(kebab(a + b) =~= kebab(a) + kebab_piece(a.len() as int, c));
                if 'A' <= c <= 'Z' {
                    assert(kebab(a + b) =~= kebab(a) + seq!['-'] + kebab(b));
                } else {
                    assert(kebab(a + b) =~= kebab(a) + Seq::<char>::empty() + kebab(b));
                }
            } else {
                assert(a + b =~= b);
                assert(kebab(a) == Seq::<char>::empty());
                assert(kebab(a + b) =~= kebab(a) + Seq::<char>::empty() + kebab(b));
            }
        } else {
            assert(init[0] == b[0]);
            let sep = if a.len() > 0 && b.len() > 0 && 'A' <= b[0] <= 'Z' {
                seq!['-']
            } else {
                Seq::<char>::empty()
            };
            assert(kebab_piece(a.len() + b.len() - 1, c) == kebab_piece(b.len() - 1, c));
            assert(kebab(a + b) =~= kebab(a) + sep + kebab(b));
        }
    }
}

/// A kebab-case name holds no underscore and no ASCII capital.
pub proof fn law_kebab_has_no_underscore_or_capital(s: Seq<char>)
    ensures
        forall|i: int| 0 <= i < kebab(s).len() ==> #[trigger] kebab(s)[i] != '_' && !('A' <= kebab(s)[i] <= 'Z'),
    decreases s.len(),
{
    if s.len() > 0 {
        law_kebab_has_no_underscore_or_capital(s.drop_last());
        let prev = kebab(s.drop_last());
        let p = kebab_piece(s.len() - 1, s.last());
        assert forall|i: int| 0 <= i < kebab(s).len() implies #[trigger] kebab(s)[i] != '_' && !('A' <= kebab(s)[i]
            <= 'Z') by {
            if i < prev.len() {
                assert(kebab(s)[i] == prev[i]);
            } else {
                assert(kebab(s)[i] == p[i - prev.len()]);
            }
        }
    }
}

/// An `ecp` child inherits `PATH`, `HOME` and `TMPDIR`, and the variables
/// whose names begin with `ECP_`; nothing else.
pub proof fn law_ecp_env_passes_exactly(key: Seq<char>)
    ensures
        passes_to_ecp(key) <==> (key == "PATH"@ || key == "HOME"@ || key == "TMPDIR"@ || (key.len() >= 4 && key.take(4)
            == seq!['E', 'C', 'P', '_'])),
{
    reveal_strlit("ECP_");
    assert("ECP_"@ =~= seq!['E', 'C', 'P', '_']);
}

/// `p` stands in `out` from index `m` on.
pub open spec fn stands_at(out: Seq<Seq<char>>, p: Seq<Seq<char>>, m: int) -> bool {
    0 <= m && m + p.len() <= out.len() && forall|t: int| 0 <= t < p.len() ==> #[trigger] out[m + t] == p[t]
}

/// The tokens of an entry that becomes flags stand together, in order, in
/// the flag part of argv.
pub proof fn lemma_flags_piece_at(
    entries: Seq<(Seq<char>, JsonV)>,
    flags: Seq<Seq<char>>,
    positional: Seq<Seq<char>>,
    j: int,
)
    requires
        flags_argv(entries, flags, positional) is Ok,
        0 <= j < entries.len(),
        !positional.contains(entries[j].0),
        flag_piece(entries[j].0, entries[j].1, flags) is Ok,
    ensures
        ({
            let out = flags_argv(entries, flags, positional)->Ok_0;
            let p = flag_piece(entries[j].0, entries[j].1, flags)->Ok_0;
            exists|m: int| stands_at(out, p, m)
        }),
    decreases entries.len(),
{
    let init = entries.drop_last();
    let out = flags_argv(entries, flags, positional)->Ok_0;
    let prev = flags_argv(init, flags, positional)->Ok_0;
    let p = flag_piece(entries[j].0, entries[j].1, flags)->Ok_0;
    if j < entries.len() - 1 {
        assert(init[j] == entries[j]);
        lemma_flags_piece_at(init, flags, positional, j);
        let m = choose|m: int| stands_at(prev, p, m);
        assert forall|t: int| 0 <= t < p.len() implies #[trigger] out[m + t] == p[t] by {
            assert(out[m + t] == prev[m + t]);
        }
        assert(stands_at(out, p, m));
    } else {
        let m = prev.len() as int;
        assert(out == prev + p);
        assert forall|t: int| 0 <= t < p.len() implies #[trigger] out[m + t] == p[t] by {}
        assert(stands_at(out, p, m));
    }
}

/// A boolean under a key that is not a bare flag is passed with its value:
/// `--key true` or `--key false`.
pub proof fn law_plain_boolean_flag_carries_its_value(key: Seq<char>, b: bool, flags: Seq<Seq<char>>)
    requires
        !flags.contains(key),
    ensures
        flag_piece(key, JsonV::Bool(b), flags) == Ok::<Seq<Seq<char>>, Seq<char>>(
            seq!["--"@ + kebab(key), if b { "true"@ } else { "false"@ }],
        ),
{
}

/// In a built argv, a boolean argument that is neither positional nor a
/// bare flag stands as its flag immediately followed by `true` or `false`;
/// a bare flag that is true stands as its flag.
pub proof fn law_boolean_arguments_in_argv(
    args: JsonV,
    flags: Seq<Seq<char>>,
    positional: Seq<Seq<char>>,
    key: Seq<char>,
    b: bool,
)
    requires
        args_argv(args, flags, positional) is Ok,
        args.get(key) == Some(JsonV::Bool(b)),
        !positional.contains(key),
    ensures
        ({
            let out = args_argv(args, flags, positional)->Ok_0;
            &&& !flags.contains(key) ==> exists|m: int|
                0 <= m && m + 1 < out.len() && #[trigger] out[m] == "--"@ + kebab(key) && out[m + 1] == (if b {
                    "true"@
                } else {
                    "false"@
                })
            &&& flags.contains(key) && b ==> exists|m: int| 0 <= m < out.len() && #[trigger] out[m] == "--"@ + kebab(key)
        }),
{
    let es = args->Object_0;
    crate::json::lemma_first_key_index(es, key);
    let j = choose|j: int| crate::json::is_first_key(es, key, j) && lookup(es, key) == Some(es[j].1);
    let fl = flags_argv(es, flags, positional)->Ok_0;
    let pre = positional_argv(es, positional);
    let out = args_argv(args, flags, positional)->Ok_0;
    assert(out == pre + fl);
    lemma_flags_piece_at(es, flags, positional, j);
    let p = flag_piece(key, JsonV::Bool(b), flags)->Ok_0;
    let m = choose|m: int| stands_at(fl, p, m);
    assert(es[j].0 == key && es[j].1 == JsonV::Bool(b));
    assert(stands_at(fl, p, m));
    if p.len() > 0 {
        assert(fl[m + 0] == p[0]);
    }
    if p.len() > 1 {
        assert(fl[m + 1] == p[1]);
    }
    if !flags.contains(key) {
        assert(fl[m] == p[0] && fl[m + 1] == p[1]);
        assert(out[pre.len() + m] == fl[m]);
        assert(out[pre.len() + m + 1] == fl[m + 1]);
    } else if b {
        assert(fl[m] == p[0]);
        assert(out[pre.len() + m] == fl[m]);
    }
}

/// The schema's property `key` lists `allowed` as its `enum`.
pub open spec fn lists_enum(schema: JsonV, key: Seq<char>, allowed: Seq<JsonV>) -> bool {
    &&& schema.get("properties"@) is Some
    &&& schema.get("properties"@)->Some_0.get(key) is Some
    &&& schema.get("properties"@)->Some_0.get(key)->Some_0.get("enum"@) == Some(JsonV::Array(allowed))
}

/// A router call with a string discriminator goes through exactly when the
/// schema lists no `enum` for it or the `enum` holds that very string; what
/// is lifted is the discriminator itself.
pub proof fn law_router_accepts_only_listed_strings(
    tool_name: Seq<char>,
    schema: JsonV,
    key: Seq<char>,
    args: JsonV,
    v: Seq<char>,
    allowed: Seq<JsonV>,
)
    requires
        args.get(key) == Some(JsonV::Str(v)),
    ensures
        lists_enum(schema, key, allowed) ==> (peel(tool_name, schema, Some(key), args) is Ok <==> exists|i: int|
            0 <= i < allowed.len() && #[trigger] allowed[i] == JsonV::Str(v)),
        enum_values(schema, key) is None ==> peel(tool_name, schema, Some(key), args) is Ok,
        peel(tool_name, schema, Some(key), args) is Ok ==> peel(tool_name, schema, Some(key), args)->Ok_0.0 == Some(v),
{
    if lists_enum(schema, key, allowed) {
        assert(enum_values(schema, key) == Some(allowed));
        if exists|i: int| 0 <= i < allowed.len() && #[trigger] allowed[i] == JsonV::Str(v) {
            let i = choose|i: int| 0 <= i < allowed.len() && #[trigger] allowed[i] == JsonV::Str(v);
            assert(allowed[i].as_str() == Some(v));
        }
        if admits(allowed, v) {
            let i = choose|i: int| 0 <= i < allowed.len() && allowed[i].as_str() == Some(v);
            assert(allowed[i] == JsonV::Str(v));
        }
    }
}

/// No reserved name stays in the public schema's `required` list, and
/// every other entry of it stays.
pub proof fn law_public_required_holds_no_reserved_name(schema: JsonV, x: JsonV)
    ensures
        public_schema(schema).get("required"@) matches Some(JsonV::Array(items)) ==> forall|i: int|
            0 <= i < RESERVED_ARGS@.len() ==> !items.contains(JsonV::Str(#[trigger] RESERVED_ARGS@[i]@)),
        schema.get("required"@) matches Some(JsonV::Array(orig)) ==> public_schema(schema).get("required"@)
            matches Some(JsonV::Array(items)) && (items.contains(x) <==> orig.contains(x) && !(x is Str
            && is_reserved(x->Str_0))),
{
    reveal_strlit("properties");
    reveal_strlit("required");
    assert("properties"@.len() != "required"@.len());
    if let JsonV::Object(entries) = schema {
        lemma_lookup_public_schema(entries, "required"@);
        if let Some(JsonV::Array(orig)) = schema.get("required"@) {
            law_public_schema_drops_reserved_args(schema, Seq::empty(), x);
            let items = public_names(orig);
            assert forall|i: int| 0 <= i < RESERVED_ARGS@.len() implies !items.contains(
                JsonV::Str(#[trigger] RESERVED_ARGS@[i]@),
            ) by {
                let n = JsonV::Str(RESERVED_ARGS@[i]@);
                law_public_schema_drops_reserved_args(schema, Seq::empty(), n);
                assert(is_reserved(RESERVED_ARGS@[i]@));
                assert(names_reserved(n));
            }
            assert(names_reserved(x) <==> (x is Str && is_reserved(x->Str_0)));
        } else {
            match schema.get("required"@) {
                Some(other) => {
                    assert(public_schema(schema).get("required"@) == Some(
                        public_member(("required"@, other)).1,
                    ));
                },
                None => {},
            }
        }
    }
}

/// What each kind of value under a key that is not positional puts into
/// argv: a string or a number goes after its flag as it is, null puts
/// nothing, a bare flag stands alone when true and is dropped when false,
/// and an array or an object is refused with an error that names the key.
pub proof fn law_flag_tokens_by_kind(key: Seq<char>, flags: Seq<Seq<char>>, text: Seq<char>, nested: JsonV)
    requires
        nested is Array || nested is Object,
    ensures
        flag_piece(key, JsonV::Str(text), flags) == Ok::<Seq<Seq<char>>, Seq<char>>(seq!["--"@ + kebab(key), text]),
        flag_piece(key, JsonV::Number(text), flags) == Ok::<Seq<Seq<char>>, Seq<char>>(
            seq!["--"@ + kebab(key), text],
        ),
        flag_piece(key, JsonV::Null, flags) == Ok::<Seq<Seq<char>>, Seq<char>>(Seq::empty()),
        flags.contains(key) ==> flag_piece(key, JsonV::Bool(true), flags) == Ok::<Seq<Seq<char>>, Seq<char>>(
            seq!["--"@ + kebab(key)],
        ),
        flags.contains(key) ==> flag_piece(key, JsonV::Bool(false), flags) == Ok::<Seq<Seq<char>>, Seq<char>>(
            Seq::empty(),
        ),
        flag_piece(key, nested, flags) == Err::<Seq<Seq<char>>, Seq<char>>(
            "nested array/object args not supported (key="@ + key + ")"@,
        ),
{
}

/// The flag name that a token spells: a token spells one exactly when it
/// begins with `--`, and the name is what follows, up to the first `=`.
pub proof fn law_flag_name_of_token(token: Seq<char>)
    ensures
        flag_of(token) is Some <==> token.len() >= 2 && token[0] == '-' && token[1] == '-',
        flag_of(token) matches Some(n) ==> {
            &&& 2 + n.len() as int <= token.len()
            &&& token.subrange(2, 2 + n.len() as int) == n
            &&& forall|i: int| 0 <= i < n.len() ==> #[trigger] n[i] != '='
            &&& 2 + n.len() as int == token.len() || token[2 + n.len() as int] == '='
        },
{
    if token.len() >= 2 && token[0] == '-' && token[1] == '-' {
        let rest = token.skip(2);
        let i = if exists|k: int| 0 <= k < rest.len() && rest[k] == '=' {
            let k0 = choose|k: int| 0 <= k < rest.len() && rest[k] == '=';
            lemma_first_eq(rest, k0)
        } else {
            rest.len() as int
        };
        lemma_before_eq(rest, i);
        let n = before_eq(rest);
        assert(n == rest.take(i));
        assert(token.subrange(2, 2 + n.len() as int) =~= n);
        if i < rest.len() {
            assert(token[2 + n.len() as int] == rest[i]);
        }
    }
}

/// Some `=` of `s` is its first.
proof fn lemma_first_eq(s: Seq<char>, k: int) -> (i: int)
    requires
        0 <= k < s.len(),
        s[k] == '=',
    ensures
        0 <= i < s.len(),
        s[i] == '=',
        forall|j: int| 0 <= j < i ==> s[j] != '=',
    decreases k,
{
    if exists|j: int| 0 <= j < k && s[j] == '=' {
        let j = choose|j: int| 0 <= j < k && s[j] == '=';
        lemma_first_eq(s, j)
    } else {
        k
    }
}

/// The text of a scalar on the command line: a string or a number as it
/// is, a boolean as `true` or `false`; null, arrays and objects have none.
pub proof fn law_scalar_text(text: Seq<char>, b: bool, other: JsonV)
    requires
        other is Null || other is Array || other is Object,
    ensures
        JsonV::Str(text).scalar_text() == Some(text),
        JsonV::Number(text).scalar_text() == Some(text),
        JsonV::Bool(b).scalar_text() == Some(if b { "true"@ } else { "false"@ }),
        other.scalar_text() is None,
{
}

/// Positional ids that all hold a scalar become their texts, one token
/// each, in declared order.
pub proof fn law_positionals_in_declared_order(entries: Seq<(Seq<char>, JsonV)>, ids: Seq<Seq<char>>)
    requires
        forall|i: int| 0 <= i < ids.len() ==> #[trigger] lookup(entries, ids[i]) is Some && lookup(
            entries,
            ids[i],
        )->Some_0.scalar_text() is Some,
    ensures
        positional_argv(entries, ids).len() == ids.len(),
        forall|i: int|
            0 <= i < ids.len() ==> #[trigger] positional_argv(entries, ids)[i] == lookup(
                entries,
                ids[i],
            )->Some_0.scalar_text()->Some_0,
    decreases ids.len(),
{
    if ids.len() > 0 {
        let init = ids.drop_last();
        assert forall|i: int| 0 <= i < init.len() implies #[trigger] lookup(entries, init[i]) is Some && lookup(
            entries,
            init[i],
        )->Some_0.scalar_text() is Some by {
            assert(init[i] == ids[i]);
            assert(lookup(entries, ids[i]) is Some);
        }
        law_positionals_in_declared_order(entries, init);
        let last = ids.len() - 1;
        assert(lookup(entries, ids[last]) is Some);
        assert forall|i: int| 0 <= i < ids.len() implies #[trigger] positional_argv(entries, ids)[i] == lookup(
            entries,
            ids[i],
        )->Some_0.scalar_text()->Some_0 by {
            if i < last {
                assert(init[i] == ids[i]);
                assert(positional_argv(entries, init)[i] == lookup(entries, init[i])->Some_0.scalar_text()->Some_0);
            }
        }
    }
}

} // verus!
