//! Single-pass substitution of placeholder tokens in a template.
use vstd::prelude::*;
use crate::text::chars_of;

verus! {

/// Whether the non-empty `p` stands at the start of `t`.
pub open spec fn occurs_at_start(t: Seq<char>, p: Seq<char>) -> bool {
    0 < p.len() <= t.len() && t.subrange(0, p.len() as int) == p
}

/// Whether the non-empty `p` occurs anywhere in `t`.
pub open spec fn occurs_in(t: Seq<char>, p: Seq<char>) -> bool {
    exists|i: int| 0 <= i <= t.len() && #[trigger] occurs_at_start(t.subrange(i, t.len() as int), p)
}

/// Index of the first of `tokens[k..]` that stands at the start of `t`, or `tokens.len()`.
pub open spec fn first_match(t: Seq<char>, tokens: Seq<Seq<char>>, k: int) -> int
    decreases tokens.len() - k,
{
    if k < 0 || k >= tokens.len() {
        tokens.len() as int
    } else if occurs_at_start(t, tokens[k]) {
        k
    } else {
        first_match(t, tokens, k + 1)
    }
}

/// `t` read once from left to right: where a token stands, the first such token
/// in `tokens` is replaced by the value at the same index; any other character is
/// kept. Replaced text is never scanned again.
pub open spec fn substituted(t: Seq<char>, tokens: Seq<Seq<char>>, values: Seq<Seq<char>>) -> Seq<
    char,
>
    decreases t.len(),
{
    if t.len() == 0 {
        Seq::empty()
    } else {
        let k = first_match(t, tokens, 0);
        if 0 <= k < tokens.len() && 0 < tokens[k].len() <= t.len() {
            values[k] + substituted(t.subrange(tokens[k].len() as int, t.len() as int), tokens, values)
        } else {
            seq![t[0]] + substituted(t.subrange(1, t.len() as int), tokens, values)
        }
    }
}

/// Whether `p` is non-empty and stands in `t` at index `i`.
fn matches_at(t: &Vec<char>, i: usize, p: &Vec<char>) -> (r: bool)
    requires
        i <= t@.len(),
    ensures
        r == occurs_at_start(t@.subrange(i as int, t@.len() as int), p@),
{
    let ghost rest = t@.subrange(i as int, t@.len() as int);
    if p.len() == 0 || p.len() > t.len() - i {
        return false;
    }
    let tl = t.len();
    let mut j: usize = 0;
    while j < p.len()
        invariant
            tl == t@.len(),
            i + p@.len() <= t@.len(),
            rest == t@.subrange(i as int, t@.len() as int),
            j <= p@.len(),
            forall|m: int| 0 <= m < j ==> t@[i + m] == p@[m],
        decreases p.len() - j,
    {
        if t[i + j] != p[j] {
            assert(rest.subrange(0, p@.len() as int)[j as int] != p@[j as int]);
            return false;
        }
        j = j + 1;
    }
    assert(rest.subrange(0, p@.len() as int) =~= p@);
    true
}

/// Index of the first token that stands in `t` at index `i`, or the number of tokens.
fn match_index(t: &Vec<char>, i: usize, tokens: &Vec<Vec<char>>, Ghost(toks): Ghost<Seq<Seq<char>>>) -> (r: usize)
    requires
        i <= t@.len(),
        toks.len() == tokens@.len(),
        forall|m: int| 0 <= m < toks.len() ==> #[trigger] toks[m] == tokens@[m]@,
    ensures
        r == first_match(t@.subrange(i as int, t@.len() as int), toks, 0),
        r <= toks.len(),
{
    let ghost rest = t@.subrange(i as int, t@.len() as int);
    let mut k: usize = 0;
    while k < tokens.len()
        invariant
            i <= t@.len(),
            rest == t@.subrange(i as int, t@.len() as int),
            k <= tokens@.len(),
            toks.len() == tokens@.len(),
            forall|m: int| 0 <= m < toks.len() ==> #[trigger] toks[m] == tokens@[m]@,
            first_match(rest, toks, 0) == first_match(rest, toks, k as int),
        decreases tokens.len() - k,
    {
        if matches_at(t, i, &tokens[k]) {
            assert(toks[k as int] == tokens@[k as int]@);
            return k;
        }
        k = k + 1;
    }
    k
}

/// The characters of each string of `v`.
fn chars_of_all(v: &Vec<String>) -> (r: Vec<Vec<char>>)
    ensures
        r@.len() == v@.len(),
        forall|m: int| 0 <= m < v@.len() ==> #[trigger] v.deep_view()[m] == r@[m]@,
{
    let mut r: Vec<Vec<char>> = Vec::new();
    for k in 0..v.len()
        invariant
            r@.len() == k,
            forall|m: int| 0 <= m < k ==> r@[m]@ == v@[m]@,
    {
        r.push(chars_of(v[k].as_str()));
    }
    r
}

/// Replaces, in one pass over `template`, each occurrence of `tokens[k]` by `values[k]`.
pub fn substitute(template: &str, tokens: &Vec<String>, values: &Vec<String>) -> (r: String)
    requires
        tokens@.len() == values@.len(),
    ensures
        r@ == substituted(template@, tokens.deep_view(), values.deep_view()),
{
    let ghost toks = tokens.deep_view();
    let ghost vals = values.deep_view();
    let t = chars_of(template);
    let token_chars = chars_of_all(tokens);
    let n = t.len();
    let mut out = String::new();
    let mut run: usize = 0;
    let mut i: usize = 0;
    assert(template@.subrange(0, n as int) =~= template@);
    while i < n
        invariant
            t@ == template@,
            n == t@.len(),
            token_chars@.len() == toks.len(),
            forall|m: int| 0 <= m < toks.len() ==> #[trigger] toks[m] == token_chars@[m]@,
            toks == tokens.deep_view(),
            vals == values.deep_view(),
            toks.len() == vals.len(),
            run <= i <= n,
            out@ + t@.subrange(run as int, i as int) + substituted(t@.subrange(i as int, n as int), toks, vals)
                == substituted(template@, toks, vals),
        decreases n - i,
    {
        let ghost rest = t@.subrange(i as int, n as int);
        let k = match_index(&t, i, &token_chars, Ghost(toks));
        if k < token_chars.len() {
            let len = token_chars[k].len();
            assert(toks[k as int] == token_chars@[k as int]@);
            assert(occurs_at_start(rest, toks[k as int])) by {
                lemma_first_match_found(rest, toks, 0);
            }
            assert(rest.subrange(len as int, rest.len() as int) =~= t@.subrange(i + len, n as int));
            let ghost before = out@;
            out.append(template.substring_char(run, i));
            out.append(values[k].as_str());
            assert(out@ + t@.subrange(i + len, i + len) =~= before + t@.subrange(run as int, i as int) + vals[k as int]);
            assert(substituted(rest, toks, vals) == vals[k as int] + substituted(t@.subrange(i + len, n as int), toks, vals));
            i = i + len;
            run = i;
        } else {
            assert(rest.subrange(1, rest.len() as int) =~= t@.subrange(i + 1, n as int));
            assert(t@.subrange(run as int, i + 1) =~= t@.subrange(run as int, i as int) + seq![rest[0]]);
            i = i + 1;
        }
    }
    out.append(template.substring_char(run, n));
    assert(substituted(t@.subrange(n as int, n as int), toks, vals) =~= Seq::empty());
    out
}

/// A token found by `first_match` stands at the start of `t`.
proof fn lemma_first_match_found(t: Seq<char>, tokens: Seq<Seq<char>>, k: int)
    requires
        0 <= k,
        first_match(t, tokens, k) < tokens.len(),
    ensures
        occurs_at_start(t, tokens[first_match(t, tokens, k)]),
        k <= first_match(t, tokens, k),
    decreases tokens.len() - k,
{
    if k < tokens.len() && !occurs_at_start(t, tokens[k]) {
        lemma_first_match_found(t, tokens, k + 1);
    }
}


/// Whether the non-empty `token` occurs in `template`.
pub fn contains_token(template: &str, token: &str) -> (r: bool)
    ensures
        r == occurs_in(template@, token@),
{
    let t = chars_of(template);
    let p = chars_of(token);
    let n = t.len();
    let mut i: usize = 0;
    while i < n
        invariant
            t@ == template@,
            p@ == token@,
            n == t@.len(),
            i <= n,
            forall|m: int| 0 <= m < i ==> !#[trigger] occurs_at_start(t@.subrange(m, n as int), p@),
        decreases n - i,
    {
        if matches_at(&t, i, &p) {
            return true;
        }
        i = i + 1;
    }
    matches_at(&t, n, &p)
}

/// The tokens among `tokens` that do not occur in `t`, in their order.
pub open spec fn missing(t: Seq<char>, tokens: Seq<Seq<char>>) -> Seq<Seq<char>>
    decreases tokens.len(),
{
    if tokens.len() == 0 {
        Seq::empty()
    } else {
        let rest = missing(t, tokens.drop_last());
        if occurs_in(t, tokens.last()) {
            rest
        } else {
            rest.push(tokens.last())
        }
    }
}

/// The tokens that `template` lacks, in the order of `tokens`.
pub fn missing_tokens(template: &str, tokens: &Vec<String>) -> (r: Vec<String>)
    ensures
        r.deep_view() == missing(template@, tokens.deep_view()),
{
    let ghost toks = tokens.deep_view();
    let mut r: Vec<String> = Vec::new();
    for k in 0..tokens.len()
        invariant
            toks == tokens.deep_view(),
            r.deep_view() == missing(template@, toks.take(k as int)),
    {
        assert(toks.take(k + 1).drop_last() =~= toks.take(k as int));
        assert(toks[k as int] == tokens@[k as int]@);
        if !contains_token(template, tokens[k].as_str()) {
            let ghost before = r.deep_view();
            r.push(tokens[k].clone());
            assert(r.deep_view() =~= before.push(toks[k as int]));
        }
    }
    assert(toks.take(tokens@.len() as int) =~= toks);
    r
}

/// A character that a token may hold: an upper-case ASCII letter or `_`.
pub open spec fn is_token_char(c: char) -> bool {
    c == '_' || ('A' <= c && c <= 'Z')
}

/// A token of the shape `__NAME__`: at least two characters, `_` at both ends,
/// upper-case ASCII letters and `_` in between.
pub open spec fn token_shaped(p: Seq<char>) -> bool {
    &&& p.len() >= 2
    &&& p[0] == '_'
    &&& p[p.len() - 1] == '_'
    &&& forall|i: int| 0 <= i < p.len() ==> is_token_char(#[trigger] p[i])
}

/// A value that cannot help to form a token: it holds no `_`, and at least one
/// character that no token holds.
pub open spec fn inert(v: Seq<char>) -> bool {
    &&& forall|i: int| 0 <= i < v.len() ==> #[trigger] v[i] != '_'
    &&& exists|i: int| 0 <= i < v.len() && !is_token_char(#[trigger] v[i])
}

/// Well-formed substitution rules: shaped tokens, inert values, one value per token.
pub open spec fn inert_rules(tokens: Seq<Seq<char>>, values: Seq<Seq<char>>) -> bool {
    &&& tokens.len() == values.len()
    &&& forall|k: int| 0 <= k < tokens.len() ==> token_shaped(#[trigger] tokens[k])
    &&& forall|k: int| 0 <= k < values.len() ==> inert(#[trigger] values[k])
}

/// Where some token stands at the start of `t`, `first_match` finds one.
proof fn lemma_first_match_exists(t: Seq<char>, tokens: Seq<Seq<char>>, k: int, j: int)
    requires
        0 <= k <= j < tokens.len(),
        occurs_at_start(t, tokens[j]),
    ensures
        first_match(t, tokens, k) <= j,
    decreases j - k,
{
    if !occurs_at_start(t, tokens[k]) {
        lemma_first_match_exists(t, tokens, k + 1, j);
    }
}

/// Output that starts with a word of token characters ending in `_` comes from
/// template text that starts with that word.
proof fn lemma_prefix_from_template(s: Seq<char>, tokens: Seq<Seq<char>>, values: Seq<Seq<char>>, w: Seq<char>)
    requires
        inert_rules(tokens, values),
        w.len() > 0,
        w[w.len() - 1] == '_',
        forall|i: int| 0 <= i < w.len() ==> is_token_char(#[trigger] w[i]),
        occurs_at_start(substituted(s, tokens, values), w),
    ensures
        occurs_at_start(s, w),
    decreases s.len(),
{
    let out = substituted(s, tokens, values);
    if s.len() == 0 {
        assert(out.len() == 0);
    } else {
        let k = first_match(s, tokens, 0);
        if 0 <= k < tokens.len() && 0 < tokens[k].len() <= s.len() {
            let v = values[k];
            let rest = substituted(s.subrange(tokens[k].len() as int, s.len() as int), tokens, values);
            assert(out == v + rest);
            assert(inert(v));
            if w.len() <= v.len() {
                assert(out.subrange(0, w.len() as int)[w.len() - 1] == v[w.len() - 1]);
                assert(v[w.len() - 1] != '_');
            } else {
                let i = choose|i: int| 0 <= i < v.len() && !is_token_char(#[trigger] v[i]);
                assert(out.subrange(0, w.len() as int)[i] == v[i]);
                assert(is_token_char(w[i]));
            }
        } else {
            let s1 = s.subrange(1, s.len() as int);
            let rest = substituted(s1, tokens, values);
            assert(out == seq![s[0]] + rest);
            assert(out.subrange(0, w.len() as int)[0] == s[0]);
            if w.len() == 1 {
                assert(s.subrange(0, 1) =~= w);
            } else {
                let w1 = w.subrange(1, w.len() as int);
                assert(rest.subrange(0, w1.len() as int) =~= out.subrange(0, w.len() as int).subrange(1, w.len() as int));
                assert(occurs_at_start(rest, w1));
                lemma_prefix_from_template(s1, tokens, values, w1);
                assert(s.subrange(0, w.len() as int) =~= seq![s[0]] + s1.subrange(0, w1.len() as int));
                assert(w =~= seq![w[0]] + w1);
            }
        }
    }
}

/// With shaped tokens and inert values, no token stands at any position of the
/// substituted text.
proof fn lemma_no_token_at(t: Seq<char>, tokens: Seq<Seq<char>>, values: Seq<Seq<char>>, j: int, p: int)
    requires
        inert_rules(tokens, values),
        0 <= j < tokens.len(),
        0 <= p <= substituted(t, tokens, values).len(),
    ensures
        !occurs_at_start(substituted(t, tokens, values).subrange(p, substituted(t, tokens, values).len() as int), tokens[j]),
    decreases t.len(),
{
    let out = substituted(t, tokens, values);
    let tok = tokens[j];
    assert(token_shaped(tok));
    if t.len() == 0 {
    } else {
        let k = first_match(t, tokens, 0);
        if 0 <= k < tokens.len() && 0 < tokens[k].len() <= t.len() {
            let v = values[k];
            let rest = substituted(t.subrange(tokens[k].len() as int, t.len() as int), tokens, values);
            assert(out == v + rest);
            if p >= v.len() {
                lemma_no_token_at(t.subrange(tokens[k].len() as int, t.len() as int), tokens, values, j, p - v.len());
                assert(out.subrange(p, out.len() as int) =~= rest.subrange(p - v.len(), rest.len() as int));
            } else {
                assert(inert(v));
                assert(out.subrange(p, out.len() as int)[0] == v[p]);
                assert(v[p] != '_');
                if occurs_at_start(out.subrange(p, out.len() as int), tok) {
                    assert(out.subrange(p, out.len() as int).subrange(0, tok.len() as int)[0] == tok[0]);
                }
            }
        } else {
            let t1 = t.subrange(1, t.len() as int);
            let rest = substituted(t1, tokens, values);
            assert(out == seq![t[0]] + rest);
            if p >= 1 {
                lemma_no_token_at(t1, tokens, values, j, p - 1);
                assert(out.subrange(p, out.len() as int) =~= rest.subrange(p - 1, rest.len() as int));
            } else if occurs_at_start(out, tok) {
                assert(out.subrange(p, out.len() as int) =~= out);
                let w = tok.subrange(1, tok.len() as int);
                assert(out.subrange(0, tok.len() as int)[0] == tok[0]);
                assert(rest.subrange(0, w.len() as int) =~= out.subrange(0, tok.len() as int).subrange(1, tok.len() as int));
                assert(w[w.len() - 1] == tok[tok.len() - 1]);
                assert forall|i: int| 0 <= i < w.len() implies is_token_char(#[trigger] w[i]) by {
                    assert(w[i] == tok[i + 1]);
                }
                lemma_prefix_from_template(t1, tokens, values, w);
                assert(t.subrange(0, tok.len() as int) =~= seq![t[0]] + t1.subrange(0, w.len() as int));
                assert(tok =~= seq![tok[0]] + w);
                lemma_first_match_exists(t, tokens, 0, j);
                lemma_first_match_found(t, tokens, 0);
            } else {
                assert(out.subrange(p, out.len() as int) =~= out);
            }
        }
    }
}

/// With shaped tokens and inert values, the substituted text holds none of the tokens.
pub proof fn lemma_no_token_left(t: Seq<char>, tokens: Seq<Seq<char>>, values: Seq<Seq<char>>)
    requires
        inert_rules(tokens, values),
    ensures
        forall|j: int| 0 <= j < tokens.len() ==> !occurs_in(substituted(t, tokens, values), #[trigger] tokens[j]),
{
    let out = substituted(t, tokens, values);
    assert forall|j: int| 0 <= j < tokens.len() implies !occurs_in(out, #[trigger] tokens[j]) by {
        assert forall|p: int| 0 <= p <= out.len() implies !#[trigger] occurs_at_start(out.subrange(p, out.len() as int), tokens[j]) by {
            lemma_no_token_at(t, tokens, values, j, p);
        }
    }
}

} // verus!
