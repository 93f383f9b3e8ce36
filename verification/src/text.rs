use vstd::prelude::*;

verus! {

/// `String::push` appends one character.
pub assume_specification[ String::push ](s: &mut String, ch: char)
    ensures
        final(s)@ == old(s)@.push(ch),
;

/// The characters of `s`, in order.
pub fn chars_of(s: &str) -> (v: Vec<char>)
    ensures
        v@ == s@,
{
    broadcast use vstd::string::group_string_axioms;
    let mut v: Vec<char> = Vec::new();
    for c in it: s.chars()
        invariant
            v@ == it.seq().take(it.index() as int),
            it.seq() == s@,
    {
        v.push(c);
    }
    v
}


/// An ASCII capital letter.
pub open spec fn is_upper(c: char) -> bool {
    'A' <= c && c <= 'Z'
}

/// The ASCII lower-case form of a capital letter.
pub open spec fn lower(c: char) -> char {
    ((c as int) + 32) as char
}

/// What one character, at position `i`, becomes in a kebab-case flag name:
/// a capital letter becomes its lower-case form, with a hyphen before it
/// unless it leads; an underscore becomes a hyphen.
pub open spec fn kebab_piece(i: int, c: char) -> Seq<char> {
    if is_upper(c) {
        if i > 0 { seq!['-', lower(c)] } else { seq![lower(c)] }
    } else if c == '_' {
        seq!['-']
    } else {
        seq![c]
    }
}

/// The kebab-case spelling of an identifier, as clap derives a flag name
/// from a field name.
pub open spec fn kebab(s: Seq<char>) -> Seq<char>
    decreases s.len(),
{
    if s.len() == 0 {
        Seq::empty()
    } else {
        kebab(s.drop_last()) + kebab_piece(s.len() - 1, s.last())
    }
}

/// `includeTests` and `include_tests` both become `include-tests`.
pub fn to_kebab(s: &str) -> (out: String)
    ensures
        out@ == kebab(s@),
{
    let cs = chars_of(s);
    let mut out = String::new();
    let mut i: usize = 0;
    while i < cs.len()
        invariant
            cs@ == s@,
            i <= cs.len(),
            out@ == kebab(s@.take(i as int)),
        decreases cs.len() - i,
    {
        let c = cs[i];
        assert(s@.take(i + 1).drop_last() == s@.take(i as int));
        if 'A' <= c && c <= 'Z' {
            if i > 0 {
                out.push('-');
            }
            out.push(((c as u8) + 32) as char);
        } else if c == '_' {
            out.push('-');
        } else {
            out.push(c);
        }
        i = i + 1;
    }
    assert(s@.take(cs.len() as int) == s@);
    out
}


/// Whether two strings hold the same characters.
pub fn str_eq(a: &str, b: &str) -> (r: bool)
    ensures
        r == (a@ == b@),
{
    let ca = chars_of(a);
    let cb = chars_of(b);
    if ca.len() != cb.len() {
        return false;
    }
    let mut i: usize = 0;
    while i < ca.len()
        invariant
            ca@ == a@,
            cb@ == b@,
            ca.len() == cb.len(),
            i <= ca.len(),
            forall|j: int| 0 <= j < i ==> ca@[j] == cb@[j],
        decreases ca.len() - i,
    {
        if ca[i] != cb[i] {
            return false;
        }
        i = i + 1;
    }
    assert(a@ =~= b@);
    true
}

/// An owned copy of `s`.
pub fn owned(s: &str) -> (r: String)
    ensures
        r@ == s@,
{
    String::from_str(s)
}


/// The text of `s` up to its first `=`.
pub open spec fn before_eq(s: Seq<char>) -> Seq<char>
    decreases s.len(),
{
    if s.len() == 0 {
        s
    } else if s[0] == '=' {
        Seq::empty()
    } else {
        seq![s[0]] + before_eq(s.drop_first())
    }
}

/// The flag name that a token spells, as clap reads it: what follows a
/// leading `--`, up to the first `=`.
pub open spec fn flag_of(token: Seq<char>) -> Option<Seq<char>> {
    if token.len() >= 2 && token[0] == '-' && token[1] == '-' {
        Some(before_eq(token.skip(2)))
    } else {
        None
    }
}

pub proof fn lemma_before_eq(s: Seq<char>, i: int)
    requires
        0 <= i <= s.len(),
        forall|j: int| 0 <= j < i ==> s[j] != '=',
        i == s.len() || s[i] == '=',
    ensures
        before_eq(s) == s.take(i),
    decreases s.len(),
{
    if s.len() > 0 && s[0] != '=' {
        assert forall|j: int| 0 <= j < i - 1 implies s.drop_first()[j] != '=' by {
            assert(s.drop_first()[j] == s[j + 1]);
        }
        lemma_before_eq(s.drop_first(), i - 1);
        assert(seq![s[0]] + s.drop_first().take(i - 1) =~= s.take(i));
    } else if s.len() > 0 {
        assert(i == 0);
    } else {
        assert(s.take(i) =~= s);
    }
}

/// The flag name that `token` spells: `graph` for `--graph` and for
/// `--graph=x`; nothing for a token without a leading `--`.
pub fn flag_token_name(token: &str) -> (r: Option<String>)
    ensures
        match r {
            Some(n) => flag_of(token@) == Some(n@),
            None => flag_of(token@) is None,
        },
{
    let cs = chars_of(token);
    if cs.len() < 2 || cs[0] != '-' || cs[1] != '-' {
        return None;
    }
    let ghost rest = token@.skip(2);
    let mut name = String::new();
    let mut i: usize = 2;
    while i < cs.len() && cs[i] != '='
        invariant
            cs@ == token@,
            rest == token@.skip(2),
            2 <= i <= cs.len(),
            name@ == rest.take(i - 2),
            forall|j: int| 0 <= j < i - 2 ==> rest[j] != '=',
        decreases cs.len() - i,
    {
        name.push(cs[i]);
        assert(rest.take(i - 1) =~= rest.take(i - 2).push(cs@[i as int]));
        i = i + 1;
    }
    proof {
        lemma_before_eq(rest, i - 2);
    }
    Some(name)
}


/// Whether `s` begins with `prefix`.
pub fn starts_with(s: &str, prefix: &str) -> (r: bool)
    ensures
        r == (prefix@.len() <= s@.len() && s@.take(prefix@.len() as int) == prefix@),
{
    let cs = chars_of(s);
    let cp = chars_of(prefix);
    if cp.len() > cs.len() {
        return false;
    }
    let mut i: usize = 0;
    while i < cp.len()
        invariant
            cs@ == s@,
            cp@ == prefix@,
            cp.len() <= cs.len(),
            i <= cp.len(),
            forall|j: int| 0 <= j < i ==> cs@[j] == cp@[j],
        decreases cp.len() - i,
    {
        if cs[i] != cp[i] {
            assert(s@.take(prefix@.len() as int)[i as int] != prefix@[i as int]);
            return false;
        }
        i = i + 1;
    }
    assert(s@.take(prefix@.len() as int) =~= prefix@);
    true
}

} // verus!
