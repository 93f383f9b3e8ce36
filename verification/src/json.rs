use vstd::prelude::*;
use crate::text::{owned, str_eq};

verus! {

/// A JSON value as the tool list and the tool calls carry it. A number is
/// held by its decimal text; an object by its entries in the order in which
/// the map walks them.
#[derive(Debug)]
pub enum Json {
    Null,
    Bool(bool),
    Number(String),
    Str(String),
    Array(Vec<Json>),
    Object(Vec<(String, Json)>),
}

/// The mathematical model of a [`Json`] value.
pub enum JsonV {
    Null,
    Bool(bool),
    Number(Seq<char>),
    Str(Seq<char>),
    Array(Seq<JsonV>),
    Object(Seq<(Seq<char>, JsonV)>),
}

impl Json {
    /// The value's model: strings as their characters, lists and entries
    /// as sequences.
    pub open spec fn view(self) -> JsonV
        decreases self,
    {
        match self {
            Json::Null => JsonV::Null,
            Json::Bool(b) => JsonV::Bool(b),
            Json::Number(n) => JsonV::Number(n@),
            Json::Str(s) => JsonV::Str(s@),
            Json::Array(items) => JsonV::Array(
                Seq::new(
                    items@.len(),
                    |i: int|
                        if 0 <= i < items@.len() {
                            items@[i].view()
                        } else {
                            JsonV::Null
                        },
                ),
            ),
            Json::Object(entries) => JsonV::Object(
                Seq::new(
                    entries@.len(),
                    |i: int|
                        if 0 <= i < entries@.len() {
                            (entries@[i].0@, entries@[i].1.view())
                        } else {
                            (Seq::empty(), JsonV::Null)
                        },
                ),
            ),
        }
    }
}


impl Clone for Json {
    fn clone(&self) -> (res: Self)
        ensures
            res@ == self@,
        decreases self, 0nat,
    {
        match self {
            Json::Null => Json::Null,
            Json::Bool(b) => Json::Bool(*b),
            Json::Number(n) => Json::Number(n.clone()),
            Json::Str(s) => Json::Str(s.clone()),
            Json::Array(items) => {
                let out = clone_items(items);
                let res = Json::Array(out);
                assert forall|j: int| 0 <= j < out@.len() implies #[trigger] res@->Array_0[j]
                    == self@->Array_0[j] by {
                    assert(out@[j]@ == items@[j]@);
                }
                assert(res@->Array_0 =~= self@->Array_0);
                res
            },
            Json::Object(entries) => {
                let out = clone_entries(entries);
                let res = Json::Object(out);
                assert forall|j: int| 0 <= j < out@.len() implies #[trigger] res@->Object_0[j]
                    == self@->Object_0[j] by {
                    assert(out@[j].0@ == entries@[j].0@);
                    assert(out@[j].1@ == entries@[j].1@);
                }
                assert(res@->Object_0 =~= self@->Object_0);
                res
            },
        }
    }
}

fn clone_items(items: &Vec<Json>) -> (out: Vec<Json>)
    ensures
        out@.len() == items@.len(),
        forall|j: int| 0 <= j < items@.len() ==> #[trigger] out@[j]@ == items@[j]@,
    decreases items, 1nat,
{
    let mut out: Vec<Json> = Vec::new();
    let mut i: usize = 0;
    while i < items.len()
        invariant
            i <= items.len(),
            out@.len() == i,
            forall|j: int| 0 <= j < i ==> #[trigger] out@[j]@ == items@[j]@,
        decreases items.len() - i,
    {
        proof {
            vstd::std_specs::vec::axiom_vec_index_decreases(*items, i as int);
        }
        out.push(items[i].clone());
        i = i + 1;
    }
    out
}

fn clone_entries(entries: &Vec<(String, Json)>) -> (out: Vec<(String, Json)>)
    ensures
        out@.len() == entries@.len(),
        forall|j: int| 0 <= j < entries@.len() ==> #[trigger] out@[j].0@ == entries@[j].0@,
        forall|j: int| 0 <= j < entries@.len() ==> #[trigger] out@[j].1@ == entries@[j].1@,
    decreases entries, 1nat,
{
    let mut out: Vec<(String, Json)> = Vec::new();
    let mut i: usize = 0;
    while i < entries.len()
        invariant
            i <= entries.len(),
            out@.len() == i,
            forall|j: int| 0 <= j < i ==> #[trigger] out@[j].0@ == entries@[j].0@,
            forall|j: int| 0 <= j < i ==> #[trigger] out@[j].1@ == entries@[j].1@,
        decreases entries.len() - i,
    {
        proof {
            vstd::std_specs::vec::axiom_vec_index_decreases(*entries, i as int);
        }
        let k = entries[i].0.clone();
        assert(k == entries@[i as int].0);
        let v = entries[i].1.clone();
        assert(v@ == entries@[i as int].1@);
        let ghost before = out@;
        out.push((k, v));
        assert(out@ == before.push((k, v)));
        assert forall|j: int| 0 <= j <= i implies #[trigger] out@[j].0@ == entries@[j].0@ by {
            if j < i {
                assert(out@[j] == before[j]);
            }
        }
        assert forall|j: int| 0 <= j <= i implies #[trigger] out@[j].1@ == entries@[j].1@ by {
            if j < i {
                assert(out@[j] == before[j]);
            }
        }
        i = i + 1;
    }
    out
}


/// Entry `i` is the first of `entries` whose key is `key`.
pub open spec fn is_first_key(entries: Seq<(Seq<char>, JsonV)>, key: Seq<char>, i: int) -> bool {
    &&& 0 <= i < entries.len()
    &&& entries[i].0 == key
    &&& forall|j: int| 0 <= j < i ==> entries[j].0 != key
}

/// The value that an object's entries hold under `key`: that of the first
/// entry with the key (a map holds each key once).
pub open spec fn lookup(entries: Seq<(Seq<char>, JsonV)>, key: Seq<char>) -> Option<JsonV> {
    if exists|i: int| is_first_key(entries, key, i) {
        Some(entries[choose|i: int| is_first_key(entries, key, i)].1)
    } else {
        None
    }
}

/// The entries that stay when every entry with `key` is taken out.
pub open spec fn without_key(entries: Seq<(Seq<char>, JsonV)>, key: Seq<char>) -> Seq<(Seq<char>, JsonV)> {
    entries.filter(|e: (Seq<char>, JsonV)| e.0 != key)
}

impl JsonV {
    /// `value.get(key)`: the member under `key` of an object; nothing for
    /// any other value.
    pub open spec fn get(self, key: Seq<char>) -> Option<JsonV> {
        match self {
            JsonV::Object(entries) => lookup(entries, key),
            _ => None,
        }
    }

    /// `value.as_str()`: the text of a string.
    pub open spec fn as_str(self) -> Option<Seq<char>> {
        match self {
            JsonV::Str(s) => Some(s),
            _ => None,
        }
    }

    /// The name of the value's kind, as error messages give it.
    pub open spec fn kind_name(self) -> Seq<char> {
        match self {
            JsonV::Null => "null"@,
            JsonV::Bool(_) => "bool"@,
            JsonV::Number(_) => "number"@,
            JsonV::Str(_) => "string"@,
            JsonV::Array(_) => "array"@,
            JsonV::Object(_) => "object"@,
        }
    }

    /// The text that stands for a scalar on a command line: a string as it
    /// is, a number in its decimal form, a boolean as `true` or `false`.
    pub open spec fn scalar_text(self) -> Option<Seq<char>> {
        match self {
            JsonV::Str(s) => Some(s),
            JsonV::Number(n) => Some(n),
            JsonV::Bool(b) => Some(bool_text(b)),
            _ => None,
        }
    }
}

/// `true` or `false`.
pub open spec fn bool_text(b: bool) -> Seq<char> {
    if b { "true"@ } else { "false"@ }
}

/// The model of an object's entries.
pub open spec fn entries_view(entries: Vec<(String, Json)>) -> Seq<(Seq<char>, JsonV)> {
    Json::Object(entries)@->Object_0
}

/// The index in `entries` of the first entry with key `key`.
pub fn find_key(entries: &Vec<(String, Json)>, key: &str) -> (r: Option<usize>)
    ensures
        match r {
            Some(i) => {
                &&& is_first_key(entries_view(*entries), key@, i as int)
                &&& lookup(entries_view(*entries), key@) == Some(entries@[i as int].1@)
            },
            None => {
                &&& forall|j: int| 0 <= j < entries@.len() ==> #[trigger] entries@[j].0@ != key@
                &&& lookup(entries_view(*entries), key@) is None
            },
        },
{
    let ghost es = entries_view(*entries);
    let mut i: usize = 0;
    while i < entries.len()
        invariant
            i <= entries.len(),
            es == entries_view(*entries),
            forall|j: int| 0 <= j < i ==> #[trigger] entries@[j].0@ != key@,
        decreases entries.len() - i,
    {
        if str_eq(entries[i].0.as_str(), key) {
            assert forall|j: int| 0 <= j < i implies es[j].0 != key@ by {
                assert(entries@[j].0@ != key@);
            }
            assert(is_first_key(es, key@, i as int));
            let ghost k = choose|k: int| is_first_key(es, key@, k);
            assert(k == i) by {
                if k < i {
                    assert(es[k].0 != key@);
                } else if k > i {
                    assert(es[i as int].0 != key@);
                }
            }
            return Some(i);
        }
        i = i + 1;
    }
    assert forall|k: int| !is_first_key(es, key@, k) by {
        if 0 <= k < es.len() {
            assert(entries@[k].0@ != key@);
        }
    }
    None
}

impl Json {
    /// `value.get(key)`.
    pub fn get(&self, key: &str) -> (r: Option<&Json>)
        ensures
            match r {
                Some(v) => self@.get(key@) == Some(v@),
                None => self@.get(key@) is None,
            },
    {
        match self {
            Json::Object(entries) => match find_key(entries, key) {
                Some(i) => Some(&entries[i].1),
                None => None,
            },
            _ => None,
        }
    }

    /// `value.as_str()`.
    pub fn as_str(&self) -> (r: Option<&str>)
        ensures
            match r {
                Some(s) => self@.as_str() == Some(s@),
                None => self@.as_str() is None,
            },
    {
        match self {
            Json::Str(s) => Some(s.as_str()),
            _ => None,
        }
    }
}

/// The name of a value's kind: `null`, `bool`, `number`, `string`, `array`
/// or `object`.
pub fn kind_name(v: &Json) -> (r: &'static str)
    ensures
        r@ == v@.kind_name(),
{
    match v {
        Json::Null => "null",
        Json::Bool(_) => "bool",
        Json::Number(_) => "number",
        Json::Str(_) => "string",
        Json::Array(_) => "array",
        Json::Object(_) => "object",
    }
}

/// The command-line text of a scalar: `None` for null, arrays and objects.
pub fn value_as_string(v: &Json) -> (r: Option<String>)
    ensures
        match r {
            Some(s) => v@.scalar_text() == Some(s@),
            None => v@.scalar_text() is None,
        },
{
    match v {
        Json::Str(s) => Some(s.clone()),
        Json::Number(n) => Some(n.clone()),
        Json::Bool(b) => Some(if *b { owned("true") } else { owned("false") }),
        _ => None,
    }
}


/// What `{:?}` makes of a string: the text in double quotes, with the
/// characters that Rust's `Debug` for `str` escapes written as escapes.
pub uninterp spec fn debug_str(s: Seq<char>) -> Seq<char>;

/// Formats `s` with `{:?}` (`<str as Debug>::fmt`); the result is named by
/// [`debug_str`] and nothing more is claimed of it.
#[verifier::external_body]
pub(crate) fn str_debug(s: &str) -> (r: String)
    ensures
        r@ == debug_str(s@),
{
    format!("{:?}", s)
}

/// `sep`-separated `parts`.
pub open spec fn join(parts: Seq<Seq<char>>, sep: Seq<char>) -> Seq<char>
    decreases parts.len(),
{
    if parts.len() == 0 {
        Seq::empty()
    } else if parts.len() == 1 {
        parts[0]
    } else {
        join(parts.drop_last(), sep) + sep + parts.last()
    }
}

impl JsonV {
    /// The `{:?}` rendering of a value: `Null`, `Bool(true)`, `Number(1)`,
    /// `String("a")`, `Array [..]`, `Object {"k": ..}`.
    pub open spec fn debug(self) -> Seq<char>
        decreases self,
    {
        match self {
            JsonV::Null => "Null"@,
            JsonV::Bool(b) => "Bool("@ + bool_text(b) + ")"@,
            JsonV::Number(n) => "Number("@ + n + ")"@,
            JsonV::Str(s) => "String("@ + debug_str(s) + ")"@,
            JsonV::Array(items) => "Array ["@ + join(debug_parts(items), ", "@) + "]"@,
            JsonV::Object(entries) => "Object {"@ + join(entry_debug_parts(entries), ", "@) + "}"@,
        }
    }
}

/// The renderings of `items`, one by one.
pub open spec fn debug_parts(items: Seq<JsonV>) -> Seq<Seq<char>>
    decreases items,
{
    if items.len() == 0 {
        Seq::empty()
    } else {
        debug_parts(items.drop_last()).push(items.last().debug())
    }
}

/// The renderings of `entries`, one by one: `"key": value`.
pub open spec fn entry_debug_parts(entries: Seq<(Seq<char>, JsonV)>) -> Seq<Seq<char>>
    decreases entries,
{
    if entries.len() == 0 {
        Seq::empty()
    } else {
        entry_debug_parts(entries.drop_last()).push(
            debug_str(entries.last().0) + ": "@ + entries.last().1.debug(),
        )
    }
}

/// `[a, b]`: the `{:?}` rendering of a list of values.
pub open spec fn debug_list(items: Seq<JsonV>) -> Seq<char> {
    "["@ + join(debug_parts(items), ", "@) + "]"@
}


proof fn lemma_join_step(parts: Seq<Seq<char>>, sep: Seq<char>, i: int)
    requires
        0 <= i < parts.len(),
    ensures
        join(parts.take(i + 1), sep) == if i == 0 {
            parts[0]
        } else {
            join(parts.take(i), sep) + sep + parts[i]
        },
{
    assert(parts.take(i + 1).drop_last() == parts.take(i));
    if i == 0 {
        assert(parts.take(1)[0] == parts[0]);
    }
}

/// The `{:?}` rendering of `v`.
pub fn debug_text(v: &Json) -> (r: String)
    ensures
        r@ == v@.debug(),
    decreases v, 0nat,
{
    match v {
        Json::Null => {
            let out = owned("Null");
            assert(v@ == JsonV::Null);
            assert(out@ == "Null"@);
            assert(JsonV::Null.debug() == "Null"@);
            assert(out@ == v@.debug());
            out
        },
        Json::Bool(b) => {
            let mut out = owned("Bool(");
            out.append(if *b { "true" } else { "false" });
            out.append(")");
            assert(out@ == v@.debug());
            out
        },
        Json::Number(n) => {
            let mut out = owned("Number(");
            out.append(n.as_str());
            out.append(")");
            assert(out@ == v@.debug());
            out
        },
        Json::Str(s) => {
            let mut out = owned("String(");
            let d = str_debug(s.as_str());
            out.append(d.as_str());
            out.append(")");
            assert(out@ == v@.debug());
            out
        },
        Json::Array(items) => {
            let mut out = owned("Array [");
            let d = join_debug_items(items);
            out.append(d.as_str());
            out.append("]");
            out
        },
        Json::Object(entries) => {
            let mut out = owned("Object {");
            let d = join_debug_entries(entries);
            out.append(d.as_str());
            out.append("}");
            out
        },
    }
}

/// The renderings of `items`, `, `-separated.
fn join_debug_items(items: &Vec<Json>) -> (r: String)
    ensures
        r@ == join(debug_parts(Json::Array(*items)@->Array_0), ", "@),
    decreases items, 1nat,
{
    let ghost iv = Json::Array(*items)@->Array_0;
    let ghost parts = debug_parts(iv);
    proof {
        lemma_debug_parts(iv);
    }
    let mut out = String::new();
    let mut i: usize = 0;
    while i < items.len()
        invariant
            i <= items.len(),
            iv == Json::Array(*items)@->Array_0,
            parts == debug_parts(iv),
            parts.len() == items.len(),
            out@ == join(parts.take(i as int), ", "@),
        decreases items.len() - i,
    {
        proof {
            vstd::std_specs::vec::axiom_vec_index_decreases(*items, i as int);
            lemma_join_step(parts, ", "@, i as int);
            lemma_debug_parts(iv);
            assert(iv[i as int] == items@[i as int]@);
        }
        if i > 0 {
            out.append(", ");
        }
        let d = debug_text(&items[i]);
        let ghost mid = out@;
        out.append(d.as_str());
        assert(out@ =~= join(parts.take(i + 1), ", "@)) by {
            if i == 0 {
                assert(mid =~= Seq::<char>::empty());
            }
        }
        i = i + 1;
    }
    assert(parts.take(items.len() as int) == parts);
    out
}

/// The renderings of `entries`, `, `-separated.
fn join_debug_entries(entries: &Vec<(String, Json)>) -> (r: String)
    ensures
        r@ == join(entry_debug_parts(entries_view(*entries)), ", "@),
    decreases entries, 1nat,
{
    let ghost ev = entries_view(*entries);
    let ghost parts = entry_debug_parts(ev);
    proof {
        lemma_entry_debug_parts(ev);
    }
    let mut out = String::new();
    let mut i: usize = 0;
    while i < entries.len()
        invariant
            i <= entries.len(),
            ev == entries_view(*entries),
            parts == entry_debug_parts(ev),
            parts.len() == entries.len(),
            out@ == join(parts.take(i as int), ", "@),
        decreases entries.len() - i,
    {
        proof {
            vstd::std_specs::vec::axiom_vec_index_decreases(*entries, i as int);
            lemma_join_step(parts, ", "@, i as int);
            lemma_entry_debug_parts(ev);
            assert(ev[i as int] == (entries@[i as int].0@, entries@[i as int].1@));
        }
        if i > 0 {
            out.append(", ");
        }
        let k = str_debug(entries[i].0.as_str());
        let ghost mid = out@;
        out.append(k.as_str());
        out.append(": ");
        let d = debug_text(&entries[i].1);
        out.append(d.as_str());
        assert(out@ =~= join(parts.take(i + 1), ", "@)) by {
            if i == 0 {
                assert(mid =~= Seq::<char>::empty());
            }
        }
        i = i + 1;
    }
    assert(parts.take(entries.len() as int) == parts);
    out
}

proof fn lemma_debug_parts(items: Seq<JsonV>)
    ensures
        debug_parts(items).len() == items.len(),
        forall|i: int| 0 <= i < items.len() ==> #[trigger] debug_parts(items)[i] == items[i].debug(),
    decreases items.len(),
{
    if items.len() > 0 {
        lemma_debug_parts(items.drop_last());
    }
}

proof fn lemma_entry_debug_parts(entries: Seq<(Seq<char>, JsonV)>)
    ensures
        entry_debug_parts(entries).len() == entries.len(),
        forall|i: int|
            0 <= i < entries.len() ==> #[trigger] entry_debug_parts(entries)[i] == debug_str(entries[i].0)
                + ": "@ + entries[i].1.debug(),
    decreases entries.len(),
{
    if entries.len() > 0 {
        lemma_entry_debug_parts(entries.drop_last());
    }
}

/// The `{:?}` rendering of a list of values: `[a, b]`.
pub fn debug_list_text(items: &Vec<Json>) -> (r: String)
    ensures
        r@ == debug_list(items@.map_values(|v: Json| v@)),
{
    let mut out = owned("[");
    let d = join_debug_items(items);
    assert(Json::Array(*items)@->Array_0 =~= items@.map_values(|v: Json| v@));
    out.append(d.as_str());
    out.append("]");
    out
}


/// An entry with `key` makes some entry the first with it.
pub proof fn lemma_first_key_exists(entries: Seq<(Seq<char>, JsonV)>, key: Seq<char>, j: int)
    requires
        0 <= j < entries.len(),
        entries[j].0 == key,
    ensures
        exists|i: int| is_first_key(entries, key, i),
    decreases j,
{
    if forall|l: int| 0 <= l < j ==> entries[l].0 != key {
        assert(is_first_key(entries, key, j));
    } else {
        let l = choose|l: int| 0 <= l < j && entries[l].0 == key;
        lemma_first_key_exists(entries, key, l);
    }
}

/// A key that the lookup finds is the key of the first entry with it.
pub proof fn lemma_first_key_index(entries: Seq<(Seq<char>, JsonV)>, key: Seq<char>)
    requires
        lookup(entries, key) is Some,
    ensures
        exists|i: int| is_first_key(entries, key, i) && lookup(entries, key) == Some(entries[i].1),
{
    let i = choose|i: int| is_first_key(entries, key, i);
    assert(is_first_key(entries, key, i) && lookup(entries, key) == Some(entries[i].1));
}

/// Looking a key up after one more entry: the earlier entries win.
pub proof fn lemma_lookup_push(entries: Seq<(Seq<char>, JsonV)>, e: (Seq<char>, JsonV), key: Seq<char>)
    ensures
        lookup(entries.push(e), key) == if lookup(entries, key) is Some {
            lookup(entries, key)
        } else if e.0 == key {
            Some(e.1)
        } else {
            None::<JsonV>
        },
{
    let es2 = entries.push(e);
    if exists|i: int| is_first_key(entries, key, i) {
        let i = choose|i: int| is_first_key(entries, key, i);
        assert(is_first_key(es2, key, i));
        let k = choose|k: int| is_first_key(es2, key, k);
        assert(k == i) by {
            if k < i {
                assert(entries[k].0 != key);
            } else if k > i {
                assert(es2[i].0 != key);
            }
        }
    } else {
        assert forall|j: int| 0 <= j < entries.len() implies entries[j].0 != key by {
            if entries[j].0 == key {
                lemma_first_key_exists(entries, key, j);
            }
        }
        if e.0 == key {
            let n = entries.len() as int;
            assert(is_first_key(es2, key, n));
            let k = choose|k: int| is_first_key(es2, key, k);
            assert(k == n) by {
                if k < n {
                    assert(entries[k].0 != key);
                }
            }
        } else {
            assert forall|k: int| !is_first_key(es2, key, k) by {
                if 0 <= k < es2.len() {
                    if k < entries.len() {
                        assert(es2[k] == entries[k]);
                    }
                }
            }
        }
    }
}

} // verus!
