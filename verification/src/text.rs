//! Character-level string helpers used throughout policy evaluation.
use vstd::prelude::*;

verus! {

broadcast use vstd::string::group_string_axioms;

/// `String::push` appends one character.
pub assume_specification[ String::push ](s: &mut String, ch: char)
    ensures
        final(s)@ == old(s)@.push(ch),
;

/// ASCII lower-casing of a single character; other characters are unchanged.
pub open spec fn ascii_lower(c: char) -> char {
    if 'A' <= c && c <= 'Z' {
        ((c as int) + 32) as char
    } else {
        c
    }
}

/// ASCII lower-casing of a whole character sequence.
pub open spec fn fold(s: Seq<char>) -> Seq<char> {
    s.map_values(|c: char| ascii_lower(c))
}

pub fn lower_char(c: char) -> (r: char)
    ensures
        r == ascii_lower(c),
{
    if 'A' <= c && c <= 'Z' {
        let b: u8 = c as u8;
        (b + 32) as char
    } else {
        c
    }
}

/// The characters of a string, as a vector.
pub fn chars_of(s: &str) -> (v: Vec<char>)
    ensures
        v@ == s@,
{
    let mut v: Vec<char> = Vec::new();
    for c in it: s.chars()
        invariant
            v@ == it.seq().take(it.index()),
            it.seq() == s@,
    {
        v.push(c);
    }
    v
}

/// A string holding exactly the given characters.
pub fn string_of(v: &Vec<char>) -> (s: String)
    ensures
        s@ == v@,
{
    let mut s = String::new();
    let mut i: usize = 0;
    while i < v.len()
        invariant
            i <= v.len(),
            s@ == v@.subrange(0, i as int),
        decreases v.len() - i,
    {
        s.push(v[i]);
        i = i + 1;
    }
    s
}

/// `p` is a prefix of `s`.
pub open spec fn is_prefix(p: Seq<char>, s: Seq<char>) -> bool {
    p.len() <= s.len() && s.subrange(0, p.len() as int) == p
}

/// `p` is a suffix of `s`.
pub open spec fn is_suffix(p: Seq<char>, s: Seq<char>) -> bool {
    p.len() <= s.len() && s.subrange(s.len() - p.len(), s.len() as int) == p
}

/// `n` occurs in `s` starting at index `i`.
pub open spec fn occurs_at(n: Seq<char>, s: Seq<char>, i: int) -> bool {
    0 <= i && i + n.len() <= s.len() && s.subrange(i, i + n.len()) == n
}

/// `n` occurs somewhere in `s`.
pub open spec fn contains_seq(s: Seq<char>, n: Seq<char>) -> bool {
    exists|i: int| occurs_at(n, s, i)
}

/// `s` contains the character `c`.
pub open spec fn has_char(s: Seq<char>, c: char) -> bool {
    exists|i: int| 0 <= i < s.len() && s[i] == c
}

/// Index of the first occurrence of `n` in `s` at or after `from`.
#[verifier::opaque]
pub open spec fn first_occurrence_from(s: Seq<char>, n: Seq<char>, from: int) -> Option<int> {
    if exists|i: int| from <= i && occurs_at(n, s, i) {
        Some(choose|i: int| from <= i && occurs_at(n, s, i) && forall|k: int| from <= k < i ==> !occurs_at(n, s, k))
    } else {
        None
    }
}

/// Index of the first occurrence of `c` in `s` at or after `from`.
pub open spec fn first_char_from(s: Seq<char>, c: char, from: int) -> Option<int> {
    first_occurrence_from(s, seq![c], from)
}

/// Sequence equality of two strings.
pub fn str_eq(a: &str, b: &str) -> (r: bool)
    ensures
        r == (a@ == b@),
{
    let x = chars_of(a);
    let y = chars_of(b);
    seq_eq(&x, &y)
}

pub fn seq_eq(x: &Vec<char>, y: &Vec<char>) -> (r: bool)
    ensures
        r == (x@ == y@),
{
    if x.len() != y.len() {
        return false;
    }
    let mut i: usize = 0;
    while i < x.len()
        invariant
            x.len() == y.len(),
            i <= x.len(),
            forall|k: int| 0 <= k < i ==> x@[k] == y@[k],
        decreases x.len() - i,
    {
        if x[i] != y[i] {
            return false;
        }
        i = i + 1;
    }
    assert(x@ =~= y@);
    true
}

/// ASCII-case-insensitive equality, as `str::eq_ignore_ascii_case`.
pub fn eq_ignore_ascii_case(a: &str, b: &str) -> (r: bool)
    ensures
        r == (fold(a@) == fold(b@)),
{
    let x = chars_of(a);
    let y = chars_of(b);
    if x.len() != y.len() {
        proof {
            assert(fold(a@).len() != fold(b@).len());
        }
        return false;
    }
    let mut i: usize = 0;
    while i < x.len()
        invariant
            x.len() == y.len(),
            x@ == a@,
            y@ == b@,
            i <= x.len(),
            forall|k: int| 0 <= k < i ==> ascii_lower(x@[k]) == ascii_lower(y@[k]),
        decreases x.len() - i,
    {
        if lower_char(x[i]) != lower_char(y[i]) {
            proof {
                assert(fold(a@)[i as int] != fold(b@)[i as int]);
            }
            return false;
        }
        i = i + 1;
    }
    assert(fold(a@) =~= fold(b@));
    true
}

/// Whether `n` occurs in `s` at position `i` (checked by character comparison).
pub fn occurs_at_exec(n: &Vec<char>, s: &Vec<char>, i: usize) -> (r: bool)
    ensures
        r == occurs_at(n@, s@, i as int),
{
    if i > s.len() || s.len() - i < n.len() {
        return false;
    }
    let mut k: usize = 0;
    while k < n.len()
        invariant
            i + n.len() <= s.len(),
            k <= n.len(),
            forall|j: int| 0 <= j < k ==> s@[i + j] == n@[j],
        decreases n.len() - k,
    {
        if s[i + k] != n[k] {
            proof {
                assert(s@.subrange(i as int, i + n.len())[k as int] != n@[k as int]);
            }
            return false;
        }
        k = k + 1;
    }
    assert(s@.subrange(i as int, i + n.len()) =~= n@);
    true
}

/// First occurrence of `n` in `s` at or after `from`.
pub fn find_from(s: &Vec<char>, n: &Vec<char>, from: usize) -> (r: Option<usize>)
    ensures
        r matches Some(i) ==> first_occurrence_from(s@, n@, from as int) == Some(i as int)
            && occurs_at(n@, s@, i as int) && from <= i,
        r is None ==> first_occurrence_from(s@, n@, from as int) is None,
        r is None ==> forall|k: int| from <= k ==> !occurs_at(n@, s@, k),
{
    let mut i: usize = from;
    while i < s.len()
        invariant
            from <= i,
            forall|k: int| from <= k < i ==> !occurs_at(n@, s@, k),
        decreases s.len() - i,
    {
        if occurs_at_exec(n, s, i) {
            proof {
                first_occurrence_is(s@, n@, from as int, i as int);
            }
            return Some(i);
        }
        i = i + 1;
    }
    if occurs_at_exec(n, s, i) {
        proof {
            first_occurrence_is(s@, n@, from as int, i as int);
        }
        return Some(i);
    }
    proof {
        assert forall|k: int| from <= k implies !occurs_at(n@, s@, k) by {
            if k > i {
                assert(k + n@.len() > s@.len());
            }
        }
        reveal(first_occurrence_from);
    }
    None
}

proof fn first_occurrence_is(s: Seq<char>, n: Seq<char>, from: int, i: int)
    requires
        from <= i,
        occurs_at(n, s, i),
        forall|k: int| from <= k < i ==> !occurs_at(n, s, k),
    ensures
        first_occurrence_from(s, n, from) == Some(i),
{
    reveal(first_occurrence_from);
    let c = choose|j: int| from <= j && occurs_at(n, s, j) && forall|k: int| from <= k < j ==> !occurs_at(n, s, k);
    assert(from <= c && occurs_at(n, s, c) && forall|k: int| from <= k < c ==> !occurs_at(n, s, k));
    if c < i {
    } else if c > i {
    }
}

/// First occurrence of the character `c` in `s` at or after `from`.
pub fn find_char_from(s: &Vec<char>, c: char, from: usize) -> (r: Option<usize>)
    ensures
        r matches Some(i) ==> first_char_from(s@, c, from as int) == Some(i as int) && from <= i < s@.len() && s@[i as int] == c,
        r is None ==> first_char_from(s@, c, from as int) is None,
        r is None ==> forall|k: int| from <= k < s@.len() ==> s@[k] != c,
{
    let mut n: Vec<char> = Vec::new();
    n.push(c);
    assert(n@ =~= seq![c]);
    let r = find_from(s, &n, from);
    proof {
        if let Some(i) = r {
            assert(s@.subrange(i as int, i + 1)[0] == c);
        } else {
            assert forall|k: int| from <= k < s@.len() implies s@[k] != c by {
                if s@[k] == c {
                    assert(s@.subrange(k, k + 1) =~= seq![c]);
                    assert(occurs_at(seq![c], s@, k));
                }
            }
        }
    }
    r
}

/// `prefix` is a prefix of `s`, as `str::starts_with`.
pub fn starts_with(s: &str, prefix: &str) -> (r: bool)
    ensures
        r == is_prefix(prefix@, s@),
{
    let x = chars_of(s);
    let p = chars_of(prefix);
    occurs_at_exec(&p, &x, 0)
}

/// `suffix` is a suffix of `s`, as `str::ends_with`.
pub fn ends_with(s: &str, suffix: &str) -> (r: bool)
    ensures
        r == is_suffix(suffix@, s@),
{
    let x = chars_of(s);
    let p = chars_of(suffix);
    if p.len() > x.len() {
        return false;
    }
    occurs_at_exec(&p, &x, x.len() - p.len())
}

/// `needle` occurs in `s`, as `str::contains`.
pub fn contains_str(s: &str, needle: &str) -> (r: bool)
    ensures
        r == contains_seq(s@, needle@),
{
    let x = chars_of(s);
    let n = chars_of(needle);
    let f = find_from(&x, &n, 0);
    proof {
        if f is None {
            assert forall|i: int| !occurs_at(n@, x@, i) by {
                if i >= 0 {
                    assert(!(0 <= i && occurs_at(n@, x@, i)));
                }
            }
        }
    }
    f.is_some()
}

/// `s` contains the character `c`.
pub fn contains_char(s: &str, c: char) -> (r: bool)
    ensures
        r == has_char(s@, c),
{
    let x = chars_of(s);
    let f = find_char_from(&x, c, 0);
    f.is_some()
}

/// A string with the characters `v[lo..hi]`.
pub fn string_of_range(v: &Vec<char>, lo: usize, hi: usize) -> (s: String)
    requires
        lo <= hi <= v.len(),
    ensures
        s@ == v@.subrange(lo as int, hi as int),
{
    let mut s = String::new();
    let mut i: usize = lo;
    while i < hi
        invariant
            lo <= i <= hi,
            hi <= v.len(),
            s@ == v@.subrange(lo as int, i as int),
        decreases hi - i,
    {
        s.push(v[i]);
        i = i + 1;
    }
    s
}

/// Copy of a string slice.
pub fn owned(s: &str) -> (r: String)
    ensures
        r@ == s@,
{
    s.to_owned()
}

/// Concatenation of string slices.
pub fn concat(parts: &Vec<&str>) -> (r: String)
    ensures
        r@ == concat_spec(parts@.map_values(|p: &str| p@)),
{
    let mut r = String::new();
    let mut i: usize = 0;
    while i < parts.len()
        invariant
            i <= parts.len(),
            r@ == concat_spec(parts@.map_values(|p: &str| p@).take(i as int)),
        decreases parts.len() - i,
    {
        r.append(parts[i]);
        proof {
            let m = parts@.map_values(|p: &str| p@);
            assert(m.take(i + 1).drop_last() =~= m.take(i as int));
        }
        i = i + 1;
    }
    proof {
        let m = parts@.map_values(|p: &str| p@);
        assert(m.take(parts.len() as int) =~= m);
    }
    r
}

/// Concatenation of a sequence of character sequences.
pub open spec fn concat_spec(parts: Seq<Seq<char>>) -> Seq<char>
    decreases parts.len(),
{
    if parts.len() == 0 {
        Seq::empty()
    } else {
        concat_spec(parts.drop_last()) + parts.last()
    }
}

/// `str::to_lowercase` of `s` (Unicode lower-casing).
pub uninterp spec fn unicode_lowercase(s: Seq<char>) -> Seq<char>;

/// Every character is ASCII.
pub open spec fn is_ascii_text(s: Seq<char>) -> bool {
    forall|i: int| 0 <= i < s.len() ==> (s[i] as u32) < 128
}

/// `str::to_lowercase`: a function of its argument; on ASCII text it is the
/// ASCII lower-casing (Unicode maps `A`-`Z` to `a`-`z` and every other ASCII
/// character to itself).
#[verifier::external_body]
pub fn to_lowercase(s: &str) -> (r: String)
    ensures
        r@ == unicode_lowercase(s@),
        is_ascii_text(s@) ==> r@ == fold(s@),
{
    s.to_lowercase()
}

/// Index of the first key equal to `key`.
#[verifier::opaque]
pub open spec fn first_key(keys: Seq<Seq<char>>, key: Seq<char>) -> Option<int> {
    if exists|i: int| 0 <= i < keys.len() && keys[i] == key {
        Some(choose|i: int| 0 <= i < keys.len() && keys[i] == key && forall|k: int| 0 <= k < i ==> keys[k] != key)
    } else {
        None
    }
}

/// `first_key` is the least index holding `key`, and `None` when no index does.
pub proof fn lemma_first_key_spec(keys: Seq<Seq<char>>, key: Seq<char>)
    ensures
        first_key(keys, key) matches Some(i) ==> 0 <= i < keys.len() && keys[i] == key
            && forall|k: int| 0 <= k < i ==> keys[k] != key,
        first_key(keys, key) is None ==> forall|k: int| 0 <= k < keys.len() ==> keys[k] != key,
{
    reveal(first_key);
    if exists|i: int| 0 <= i < keys.len() && keys[i] == key {
        let w = choose|i: int| 0 <= i < keys.len() && keys[i] == key;
        lemma_least_index(keys, key, w);
    }
}

proof fn lemma_least_index(keys: Seq<Seq<char>>, key: Seq<char>, w: int)
    requires
        0 <= w < keys.len(),
        keys[w] == key,
    ensures
        exists|i: int| 0 <= i < keys.len() && keys[i] == key && forall|k: int| 0 <= k < i ==> keys[k] != key,
    decreases w,
{
    if exists|k: int| 0 <= k < w && keys[k] == key {
        let k = choose|k: int| 0 <= k < w && keys[k] == key;
        lemma_least_index(keys, key, k);
    } else {
        assert(forall|k: int| 0 <= k < w ==> keys[k] != key);
    }
}

pub proof fn lemma_first_key(keys: Seq<Seq<char>>, key: Seq<char>, i: int)
    requires
        0 <= i < keys.len(),
        keys[i] == key,
        forall|k: int| 0 <= k < i ==> keys[k] != key,
    ensures
        first_key(keys, key) == Some(i),
{
    lemma_first_key_spec(keys, key);
    match first_key(keys, key) {
        Some(c) => {
            if c < i {
            } else if c > i {
            }
        },
        None => {},
    }
}

pub proof fn lemma_first_key_none(keys: Seq<Seq<char>>, key: Seq<char>)
    requires
        forall|k: int| 0 <= k < keys.len() ==> keys[k] != key,
    ensures
        first_key(keys, key) is None,
{
    lemma_first_key_spec(keys, key);
}

/// Concatenation of two string slices.
pub fn join2(a: &str, b: &str) -> (r: String)
    ensures
        r@ == a@ + b@,
{
    let mut s = owned(a);
    s.append(b);
    s
}

/// The decimal digit character for `d < 10`.
pub open spec fn digit_char(d: nat) -> char {
    if d == 0 { '0' }
    else if d == 1 { '1' }
    else if d == 2 { '2' }
    else if d == 3 { '3' }
    else if d == 4 { '4' }
    else if d == 5 { '5' }
    else if d == 6 { '6' }
    else if d == 7 { '7' }
    else if d == 8 { '8' }
    else { '9' }
}

/// Decimal text of a natural number, without leading zeros.
pub open spec fn nat_text(n: nat) -> Seq<char>
    decreases n,
{
    if n < 10 {
        seq![digit_char(n)]
    } else {
        nat_text(n / 10).push(digit_char(n % 10))
    }
}

/// Decimal text of an integer, with a leading `-` when it is negative.
pub open spec fn int_text(i: int) -> Seq<char> {
    if i < 0 {
        seq!['-'] + nat_text((-i) as nat)
    } else {
        nat_text(i as nat)
    }
}

fn digit(d: u64) -> (c: char)
    requires
        d < 10,
    ensures
        c == digit_char(d as nat),
{
    if d == 0 { '0' }
    else if d == 1 { '1' }
    else if d == 2 { '2' }
    else if d == 3 { '3' }
    else if d == 4 { '4' }
    else if d == 5 { '5' }
    else if d == 6 { '6' }
    else if d == 7 { '7' }
    else if d == 8 { '8' }
    else { '9' }
}

fn push_digits(n: u64, out: &mut String)
    ensures
        final(out)@ == old(out)@ + nat_text(n as nat),
    decreases n,
{
    if n >= 10 {
        push_digits(n / 10, out);
    }
    out.push(digit(n % 10));
    proof {
        if n >= 10 {
            assert(old(out)@ + nat_text(n as nat) =~= old(out)@ + nat_text((n / 10) as nat) + seq![digit_char((n % 10) as nat)]);
        }
    }
}

/// Decimal text of a `usize`, as `to_string` writes it.
pub fn usize_text(n: usize) -> (r: String)
    ensures
        r@ == nat_text(n as nat),
{
    let mut s = String::new();
    push_digits(n as u64, &mut s);
    proof {
        assert(Seq::<char>::empty() + nat_text(n as nat) =~= nat_text(n as nat));
    }
    s
}

/// Decimal text of an `i64`, as `to_string` writes it.
pub fn i64_text(n: i64) -> (r: String)
    ensures
        r@ == int_text(n as int),
{
    let mut s = String::new();
    if n < 0 {
        s.push('-');
        let m: u64 = (0 - (n as i128)) as u64;
        push_digits(m, &mut s);
    } else {
        push_digits(n as u64, &mut s);
    }
    s
}

/// Concatenation of three string slices.
pub fn cat3(a: &str, b: &str, c: &str) -> (r: String)
    ensures
        r@ == a@ + b@ + c@,
{
    let mut s = owned(a);
    s.append(b);
    s.append(c);
    s
}

/// Concatenation of five string slices.
pub fn cat5(a: &str, b: &str, c: &str, d: &str, e: &str) -> (r: String)
    ensures
        r@ == a@ + b@ + c@ + d@ + e@,
{
    let mut s = owned(a);
    s.append(b);
    s.append(c);
    s.append(d);
    s.append(e);
    s
}

/// The Unicode `White_Space` characters, those `char::is_whitespace` accepts.
pub open spec fn is_ws(c: char) -> bool {
    ||| ('\u{9}' <= c && c <= '\u{d}')
    ||| c == ' '
    ||| c == '\u{85}'
    ||| c == '\u{a0}'
    ||| c == '\u{1680}'
    ||| ('\u{2000}' <= c && c <= '\u{200a}')
    ||| c == '\u{2028}'
    ||| c == '\u{2029}'
    ||| c == '\u{202f}'
    ||| c == '\u{205f}'
    ||| c == '\u{3000}'
}

/// Whether `c` is a Unicode white-space character.
pub fn is_whitespace(c: char) -> (r: bool)
    ensures
        r == is_ws(c),
{
    ('\u{9}' <= c && c <= '\u{d}')
    || c == ' '
    || c == '\u{85}'
    || c == '\u{a0}'
    || c == '\u{1680}'
    || ('\u{2000}' <= c && c <= '\u{200a}')
    || c == '\u{2028}'
    || c == '\u{2029}'
    || c == '\u{202f}'
    || c == '\u{205f}'
    || c == '\u{3000}'
}

/// The pieces of `s` between occurrences of `sep` (one piece when it has none).
pub open spec fn split_spec(s: Seq<char>, sep: char) -> Seq<Seq<char>>
    decreases s.len(),
{
    if s.len() == 0 {
        seq![Seq::empty()]
    } else {
        let parts = split_spec(s.drop_last(), sep);
        if s.last() == sep {
            parts.push(Seq::empty())
        } else {
            parts.update(parts.len() - 1, parts.last().push(s.last()))
        }
    }
}

/// The pieces of `s` between occurrences of `sep`, as `str::split`.
pub fn split_char(s: &str, sep: char) -> (r: Vec<String>)
    ensures
        crate::ci_map::strings_view(r@) == split_spec(s@, sep),
{
    let cs = chars_of(s);
    let mut parts: Vec<String> = Vec::new();
    let mut start: usize = 0;
    let mut i: usize = 0;
    proof {
        assert(s@.take(0) =~= Seq::<char>::empty());
    }
    while i < cs.len()
        invariant
            cs@ == s@,
            start <= i <= cs@.len(),
            split_spec(s@.take(i as int), sep) == crate::ci_map::strings_view(parts@).push(s@.subrange(start as int, i as int)),
        decreases cs@.len() - i,
    {
        proof {
            assert(s@.take(i + 1).drop_last() =~= s@.take(i as int));
            assert(s@.take(i + 1).last() == s@[i as int]);
        }
        if cs[i] == sep {
            let ghost prev = parts@;
            parts.push(string_of_range(&cs, start, i));
            proof {
                assert(crate::ci_map::strings_view(parts@) =~= crate::ci_map::strings_view(prev).push(s@.subrange(start as int, i as int)));
                assert(s@.subrange(i + 1, i + 1) =~= Seq::<char>::empty());
            }
            start = i + 1;
        } else {
            proof {
                assert(s@.subrange(start as int, i + 1) =~= s@.subrange(start as int, i as int).push(s@[i as int]));
            }
        }
        i = i + 1;
    }
    let ghost prev = parts@;
    parts.push(string_of_range(&cs, start, cs.len()));
    proof {
        assert(s@.take(i as int) =~= s@);
        assert(crate::ci_map::strings_view(parts@) =~= crate::ci_map::strings_view(prev).push(s@.subrange(start as int, i as int)));
    }
    parts
}

/// The words of `s` (runs of non-white-space characters) found so far,
/// and the word being read at its end.
pub open spec fn words_state(s: Seq<char>) -> (Seq<Seq<char>>, Seq<char>)
    decreases s.len(),
{
    if s.len() == 0 {
        (Seq::empty(), Seq::empty())
    } else {
        let (done, cur) = words_state(s.drop_last());
        if is_ws(s.last()) {
            if cur.len() > 0 { (done.push(cur), Seq::empty()) } else { (done, cur) }
        } else {
            (done, cur.push(s.last()))
        }
    }
}

/// The words of `s`, as `str::split_whitespace` gives them.
pub open spec fn words_spec(s: Seq<char>) -> Seq<Seq<char>> {
    let (done, cur) = words_state(s);
    if cur.len() > 0 { done.push(cur) } else { done }
}

/// The words of `s`, as `str::split_whitespace`.
pub fn split_whitespace(s: &str) -> (r: Vec<String>)
    ensures
        crate::ci_map::strings_view(r@) == words_spec(s@),
{
    let cs = chars_of(s);
    let mut done: Vec<String> = Vec::new();
    let mut cur: Vec<char> = Vec::new();
    let mut i: usize = 0;
    proof {
        assert(s@.take(0) =~= Seq::<char>::empty());
    }
    while i < cs.len()
        invariant
            cs@ == s@,
            i <= cs@.len(),
            words_state(s@.take(i as int)) == (crate::ci_map::strings_view(done@), cur@),
        decreases cs@.len() - i,
    {
        proof {
            assert(s@.take(i + 1).drop_last() =~= s@.take(i as int));
            assert(s@.take(i + 1).last() == s@[i as int]);
        }
        let c = cs[i];
        if is_whitespace(c) {
            if cur.len() > 0 {
                let ghost prev = done@;
                done.push(string_of(&cur));
                proof {
                    assert(crate::ci_map::strings_view(done@) =~= crate::ci_map::strings_view(prev).push(cur@));
                }
                cur = Vec::new();
            }
        } else {
            cur.push(c);
        }
        i = i + 1;
    }
    proof {
        assert(s@.take(i as int) =~= s@);
    }
    if cur.len() > 0 {
        let ghost prev = done@;
        done.push(string_of(&cur));
        proof {
            assert(crate::ci_map::strings_view(done@) =~= crate::ci_map::strings_view(prev).push(cur@));
        }
    }
    done
}

/// The length in bytes of the UTF-8 text of `s`, as `str::len` gives it.
pub open spec fn byte_len(s: Seq<char>) -> usize {
    vstd::utf8::encode_utf8(s).len() as usize
}

/// `s.len()`: the length of `s` in bytes.
pub fn str_byte_len(s: &str) -> (r: usize)
    ensures
        r == byte_len(s@),
{
    s.len()
}


/// The parts with `sep` between each two of them.
pub open spec fn joined(parts: Seq<Seq<char>>, sep: Seq<char>) -> Seq<char>
    decreases parts.len(),
{
    if parts.len() == 0 {
        Seq::empty()
    } else if parts.len() == 1 {
        parts[0]
    } else {
        joined(parts.drop_last(), sep) + sep + parts.last()
    }
}

/// `parts.join(sep)`.
pub fn join_strings(parts: &Vec<String>, sep: &str) -> (r: String)
    ensures
        r@ == joined(Seq::new(parts@.len(), |i: int| parts@[i]@), sep@),
{
    let ghost pv = Seq::new(parts@.len(), |i: int| parts@[i]@);
    let mut out = String::new();
    let mut i: usize = 0;
    proof {
        assert(pv.take(0) =~= Seq::<Seq<char>>::empty());
        assert(out@ =~= joined(pv.take(0), sep@));
    }
    while i < parts.len()
        invariant
            i <= parts@.len(),
            pv == Seq::new(parts@.len(), |i: int| parts@[i]@),
            out@ == joined(pv.take(i as int), sep@),
        decreases parts@.len() - i,
    {
        proof {
            assert(pv.take(i + 1).drop_last() =~= pv.take(i as int));
            assert(pv.take(i + 1).last() == parts@[i as int]@);
        }
        if i > 0 {
            out.append(sep);
        }
        out.append(parts[i].as_str());
        proof {
            if i == 0 {
                assert(pv.take(1)[0] == parts@[0]@);
            }
        }
        i = i + 1;
    }
    proof {
        assert(pv.take(i as int) =~= pv);
    }
    out
}


/// `s` without its leading white space.
pub open spec fn trim_start(s: Seq<char>) -> Seq<char>
    decreases s.len(),
{
    if s.len() > 0 && is_ws(s[0]) { trim_start(s.drop_first()) } else { s }
}

/// `s` without its trailing white space.
pub open spec fn trim_end(s: Seq<char>) -> Seq<char>
    decreases s.len(),
{
    if s.len() > 0 && is_ws(s.last()) { trim_end(s.drop_last()) } else { s }
}

/// `s` without leading and trailing white space, as `str::trim`.
pub open spec fn trimmed(s: Seq<char>) -> Seq<char> {
    trim_end(trim_start(s))
}

/// `str::trim`: `s` without leading and trailing white space.
pub fn trim(s: &str) -> (r: String)
    ensures
        r@ == trimmed(s@),
{
    let cs = chars_of(s);
    let mut lo: usize = 0;
    proof {
        assert(s@.skip(0) =~= s@);
    }
    while lo < cs.len() && is_whitespace(cs[lo])
        invariant
            cs@ == s@,
            lo <= cs@.len(),
            trim_start(s@) == trim_start(s@.skip(lo as int)),
        decreases cs@.len() - lo,
    {
        proof {
            assert(s@.skip(lo as int)[0] == cs@[lo as int]);
            assert(s@.skip(lo as int).drop_first() =~= s@.skip(lo + 1));
        }
        lo = lo + 1;
    }
    proof {
        if lo < cs@.len() {
            assert(s@.skip(lo as int)[0] == cs@[lo as int]);
        }
        assert(trim_start(s@) == s@.skip(lo as int));
        assert(s@.skip(lo as int) =~= s@.subrange(lo as int, s@.len() as int));
    }
    let ghost t = s@.subrange(lo as int, s@.len() as int);
    let mut hi: usize = cs.len();
    proof {
        assert(t.take(t.len() as int) =~= t);
    }
    while hi > lo && is_whitespace(cs[hi - 1])
        invariant
            cs@ == s@,
            lo <= hi <= cs@.len(),
            t == s@.subrange(lo as int, s@.len() as int),
            trim_end(t) == trim_end(t.take(hi - lo)),
        decreases hi,
    {
        proof {
            assert(t.take(hi - lo).last() == cs@[hi - 1]);
            assert(t.take(hi - lo).drop_last() =~= t.take(hi - 1 - lo));
        }
        hi = hi - 1;
    }
    proof {
        if hi > lo {
            assert(t.take(hi - lo).last() == cs@[hi - 1]);
        }
        assert(t.take(hi - lo) =~= s@.subrange(lo as int, hi as int));
    }
    string_of_range(&cs, lo, hi)
}

} // verus!
