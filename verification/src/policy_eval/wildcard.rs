//! IAM wildcard matching (`*` and `?`), case-insensitive, by way of a regular
//! expression, and `${...}` policy-variable expansion.
use vstd::prelude::*;
use crate::text::{chars_of, string_of, string_of_range, find_from, find_char_from, first_occurrence_from, first_char_from, occurs_at};
use crate::ci_map::{CaseInsensitiveMap, ContextMap, ctx_get};

verus! {

/// Whether `regex::Regex::new` accepts the pattern `re`.
pub uninterp spec fn regex_compiles(re: Seq<char>) -> bool;

/// `regex::Regex::is_match` of the compiled pattern `re` on `haystack`.
pub uninterp spec fn regex_is_match(re: Seq<char>, haystack: Seq<char>) -> bool;

/// The characters that `regex::escape` escapes: those with a meaning in the
/// regex language, inside or outside character classes.
pub open spec fn escaped_by_regex(c: char) -> bool {
    c == '\\' || c == '.' || c == '+' || c == '*' || c == '?' || c == '(' || c == ')' || c == '|'
        || c == '[' || c == ']' || c == '{' || c == '}' || c == '^' || c == '$' || c == '#'
        || c == '&' || c == '-' || c == '~'
}

/// `regex::escape` of `s`: each character, with a backslash before each one
/// that `escaped_by_regex` names.
pub open spec fn regex_escaped(s: Seq<char>) -> Seq<char>
    decreases s.len(),
{
    if s.len() == 0 {
        Seq::empty()
    } else {
        regex_escaped(s.drop_last()) + if escaped_by_regex(s.last()) { seq!['\\', s.last()] } else { seq![s.last()] }
    }
}

/// Compiles `re` with `regex::Regex::new` and, when that succeeds, runs
/// `Regex::is_match` on `haystack`. The contract claims only that the outcome
/// is `None` exactly when compilation fails and otherwise the match result;
/// what the regex language means is left to the `regex` crate.
#[verifier::external_body]
fn regex_match(re: &str, haystack: &str) -> (r: Option<bool>)
    ensures
        (r is Some) == regex_compiles(re@),
        r matches Some(b) ==> b == regex_is_match(re@, haystack@),
{
    match regex::Regex::new(re) {
        Ok(compiled) => Some(compiled.is_match(haystack)),
        Err(_) => None,
    }
}

/// `regex::escape` (regex-syntax's `escape_into`): `s` with a backslash put
/// before each meta character.
#[verifier::external_body]
fn regex_escape(s: &str) -> (r: String)
    ensures
        r@ == regex_escaped(s@),
{
    regex::escape(s)
}

/// Characters that stand for themselves only when escaped.
pub open spec fn is_regex_meta(c: char) -> bool {
    c == '.' || c == '$' || c == '^' || c == '+' || c == '{' || c == '}' || c == '['
        || c == ']' || c == '(' || c == ')' || c == '|' || c == '\\'
}

/// Regex text for one pattern character.
pub open spec fn regex_piece(c: char) -> Seq<char> {
    if c == '*' {
        seq!['.', '*']
    } else if c == '?' {
        seq!['.']
    } else if is_regex_meta(c) {
        seq!['\\', c]
    } else {
        seq![c]
    }
}

/// Regex text for a whole wildcard pattern, without anchors.
pub open spec fn regex_body(p: Seq<char>) -> Seq<char>
    decreases p.len(),
{
    if p.len() == 0 {
        Seq::empty()
    } else {
        regex_body(p.drop_last()) + regex_piece(p.last())
    }
}

/// `(?is)^`: case-insensitive, `.` taking any character (newlines too), anchored at the start.
pub open spec fn case_insensitive_anchor() -> Seq<char> {
    seq!['(', '?', 'i', 's', ')', '^']
}

/// The anchored, case-insensitive regex for a wildcard pattern, in which `*`
/// takes any run of characters and `?` any one character, newlines included.
pub open spec fn pattern_regex(p: Seq<char>) -> Seq<char> {
    case_insensitive_anchor() + regex_body(p) + seq!['$']
}

/// The regex matching `p` literally, used when `pattern_regex(p)` does not compile.
pub open spec fn literal_regex(p: Seq<char>) -> Seq<char> {
    case_insensitive_anchor() + regex_escaped(p) + seq!['$']
}

/// Whether `value` matches the wildcard `pattern`.
pub open spec fn pattern_matches(pattern: Seq<char>, value: Seq<char>) -> bool {
    if regex_compiles(pattern_regex(pattern)) {
        regex_is_match(pattern_regex(pattern), value)
    } else {
        regex_compiles(literal_regex(pattern)) && regex_is_match(literal_regex(pattern), value)
    }
}

fn push_all(out: &mut Vec<char>, s: &Vec<char>)
    ensures
        final(out)@ == old(out)@ + s@,
{
    let mut i: usize = 0;
    while i < s.len()
        invariant
            i <= s.len(),
            out@ == old(out)@ + s@.subrange(0, i as int),
        decreases s.len() - i,
    {
        out.push(s[i]);
        proof {
            assert(old(out)@ + s@.subrange(0, i + 1) =~= (old(out)@ + s@.subrange(0, i as int)).push(s@[i as int]));
        }
        i = i + 1;
    }
    proof {
        assert(s@.subrange(0, s@.len() as int) =~= s@);
    }
}

fn anchor_chars() -> (v: Vec<char>)
    ensures
        v@ == case_insensitive_anchor(),
{
    let mut v: Vec<char> = Vec::new();
    v.push('(');
    v.push('?');
    v.push('i');
    v.push('s');
    v.push(')');
    v.push('^');
    assert(v@ =~= case_insensitive_anchor());
    v
}

/// The anchored, case-insensitive regex of a wildcard pattern.
pub fn pattern_to_regex(pattern: &str) -> (r: String)
    ensures
        r@ == pattern_regex(pattern@),
{
    let p = chars_of(pattern);
    let mut out = anchor_chars();
    let mut i: usize = 0;
    while i < p.len()
        invariant
            i <= p.len(),
            out@ == case_insensitive_anchor() + regex_body(p@.subrange(0, i as int)),
        decreases p.len() - i,
    {
        let c = p[i];
        let ghost before = out@;
        if c == '*' {
            out.push('.');
            out.push('*');
        } else if c == '?' {
            out.push('.');
        } else if c == '.' || c == '$' || c == '^' || c == '+' || c == '{' || c == '}' || c == '['
            || c == ']' || c == '(' || c == ')' || c == '|' || c == '\\' {
            out.push('\\');
            out.push(c);
        } else {
            out.push(c);
        }
        proof {
            let q = p@.subrange(0, i + 1);
            assert(q.drop_last() =~= p@.subrange(0, i as int));
            assert(q.last() == c);
            assert(out@ =~= before + regex_piece(c));
        }
        i = i + 1;
    }
    out.push('$');
    proof {
        assert(p@.subrange(0, p@.len() as int) =~= p@);
    }
    string_of(&out)
}

/// Whether `value` matches the IAM wildcard `pattern` (`*` any characters,
/// `?` one character, case-insensitive).
pub fn matches(pattern: &str, value: &str) -> (r: bool)
    ensures
        r == pattern_matches(pattern@, value@),
{
    let re = pattern_to_regex(pattern);
    match regex_match(re.as_str(), value) {
        Some(b) => b,
        None => {
            let esc = chars_of(regex_escape(pattern).as_str());
            let mut out = anchor_chars();
            push_all(&mut out, &esc);
            out.push('$');
            proof {
                assert(out@ =~= literal_regex(pattern@));
            }
            let fallback = string_of(&out);
            match regex_match(fallback.as_str(), value) {
                Some(b) => b,
                None => false,
            }
        },
    }
}

/// Whether an IAM action matches an action pattern such as `iam:*` or `s3:Get*`.
pub fn action_matches(pattern: &str, action: &str) -> (r: bool)
    ensures
        r == pattern_matches(pattern@, action@),
{
    matches(pattern, action)
}

/// Whether a resource ARN matches a resource pattern such as `arn:aws:s3:::bucket/*`.
pub fn resource_matches(pattern: &str, resource: &str) -> (r: bool)
    ensures
        r == pattern_matches(pattern@, resource@),
{
    matches(pattern, resource)
}

/// The value a policy variable expands to: the first value of the key, or
/// nothing when the key is absent.
pub open spec fn variable_value(ctx: ContextMap, name: Seq<char>) -> Seq<char> {
    match ctx_get(ctx, name) {
        Some(vs) => if vs.len() > 0 { vs[0] } else { Seq::empty() },
        None => Seq::empty(),
    }
}

/// Replaces the first `${name}` of `s` with the value of `name`; `None`
/// when `s` holds no complete `${...}`.
pub open spec fn expand_once(s: Seq<char>, ctx: ContextMap) -> Option<Seq<char>> {
    match first_occurrence_from(s, seq!['$', '{'], 0) {
        None => None,
        Some(st) => match first_char_from(s, '}', st) {
            None => None,
            Some(e) => Some(s.subrange(0, st) + variable_value(ctx, s.subrange(st + 2, e)) + s.subrange(e + 1, s.len() as int)),
        },
    }
}

/// Expansion repeated at most `fuel` times, each time from the start of the text.
pub open spec fn expand_steps(s: Seq<char>, ctx: ContextMap, fuel: nat) -> Seq<char>
    decreases fuel,
{
    if fuel == 0 {
        s
    } else {
        match expand_once(s, ctx) {
            None => s,
            Some(t) => expand_steps(t, ctx, (fuel - 1) as nat),
        }
    }
}

/// Most replacement steps `expand_variables` performs.
pub open spec fn expansion_limit() -> nat {
    18446744073709551615
}

fn push_range(out: &mut Vec<char>, v: &Vec<char>, lo: usize, hi: usize)
    requires
        lo <= hi <= v.len(),
    ensures
        final(out)@ == old(out)@ + v@.subrange(lo as int, hi as int),
{
    let mut i: usize = lo;
    while i < hi
        invariant
            lo <= i <= hi,
            hi <= v.len(),
            out@ == old(out)@ + v@.subrange(lo as int, i as int),
        decreases hi - i,
    {
        out.push(v[i]);
        proof {
            assert(old(out)@ + v@.subrange(lo as int, i + 1) =~= (old(out)@ + v@.subrange(lo as int, i as int)).push(v@[i as int]));
        }
        i = i + 1;
    }
}

fn expand_one(result: &Vec<char>, context: &CaseInsensitiveMap) -> (r: Option<Vec<char>>)
    ensures
        r matches Some(v) ==> expand_once(result@, context@) == Some(v@),
        r is None ==> expand_once(result@, context@) is None,
{
    let mut opener: Vec<char> = Vec::new();
    opener.push('$');
    opener.push('{');
    proof {
        assert(opener@ =~= seq!['$', '{']);
    }
    let start = match find_from(result, &opener, 0) {
        Some(st) => st,
        None => {
            return None;
        },
    };
    let end = match find_char_from(result, '}', start) {
        Some(e) => e,
        None => {
            return None;
        },
    };
    proof {
        assert(result@.subrange(start as int, start + 2) == seq!['$', '{']);
        assert(result@.subrange(start as int, start + 2)[1] == result@[start + 1]);
        assert(result@.subrange(start as int, start + 2)[0] == result@[start as int]);
    }
    let name = string_of_range(result, start + 2, end);
    let value: Vec<char> = match context.get_first(name.as_str()) {
        Some(v) => chars_of(v),
        None => Vec::new(),
    };
    let mut next: Vec<char> = Vec::new();
    push_range(&mut next, result, 0, start);
    push_range(&mut next, &value, 0, value.len());
    push_range(&mut next, result, end + 1, result.len());
    proof {
        assert(value@.subrange(0, value@.len() as int) =~= value@);
        assert(value@ == variable_value(context@, name@));
        assert(next@ =~= result@.subrange(0, start as int) + variable_value(context@, result@.subrange(start + 2, end as int)) + result@.subrange(end + 1, result@.len() as int));
    }
    Some(next)
}

/// Expands policy variables such as `${aws:username}` from the condition
/// context; an unknown variable expands to nothing.
pub fn expand_variables(pattern: &str, context: &CaseInsensitiveMap) -> (r: String)
    ensures
        r@ == expand_steps(pattern@, context@, expansion_limit()),
{
    let mut result = chars_of(pattern);
    let mut steps: u64 = 0;
    while steps < 18446744073709551615u64
        invariant
            expand_steps(result@, context@, (expansion_limit() - steps) as nat) == expand_steps(pattern@, context@, expansion_limit()),
        ensures
            result@ == expand_steps(pattern@, context@, expansion_limit()),
        decreases 18446744073709551615u64 - steps,
    {
        match expand_one(&result, context) {
            Some(next) => {
                result = next;
            },
            None => {
                break;
            },
        }
        steps = steps + 1;
    }
    string_of(&result)
}

} // verus!
