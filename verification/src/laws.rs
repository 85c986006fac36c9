//! Properties relating the parsers and the formatters: a logfmt line built
//! by the default formatter parses back to the event it came from.

use vstd::prelude::*;

use crate::event::{
    EventModel, FieldsModel, has_key, keys_unique, lookup, remove_key, first_present, ts_aliases,
    level_aliases, message_aliases, promote_timestamp, promote_level, promote_message,
    extract_model, lemma_lookup_absent, lemma_lookup_some_index, lemma_upsert_absent,
};
use crate::logfmt::{
    is_key_start, is_key_char, key_run_end, find_quote, try_match, scan_pairs, fields_of_pairs,
    logfmt_model,
};
use crate::formatters::{
    escape_logfmt, render_logfmt_value, rendered_logfmt_fields, logfmt_parts, logfmt_output,
    sort_fields, insert_sorted, drop_alias_fields, is_core_alias, join_sep,
};
use crate::text::{
    is_digit, digit_val, is_digits, digits_val, dec_digits, digit_char, int_chars, int_value, is_int_literal,
    int_literal_body, int_literal_negative, is_space, lex_le, nonspace_run_end,
};
use crate::value::{ValModel, coerce_model};

verus! {

// ---------- decimal text parses back to its value ----------

/// A digit character carries its digit value.
pub proof fn lemma_digit_char_val(d: nat)
    requires
        d < 10,
    ensures
        is_digit(digit_char(d)),
        digit_val(digit_char(d)) == d,
{
    if d == 0 {
        assert(('0' as u32) == 48);
    } else if d == 1 {
        assert(('1' as u32) == 49);
    } else if d == 2 {
        assert(('2' as u32) == 50);
    } else if d == 3 {
        assert(('3' as u32) == 51);
    } else if d == 4 {
        assert(('4' as u32) == 52);
    } else if d == 5 {
        assert(('5' as u32) == 53);
    } else if d == 6 {
        assert(('6' as u32) == 54);
    } else if d == 7 {
        assert(('7' as u32) == 55);
    } else if d == 8 {
        assert(('8' as u32) == 56);
    } else {
        assert(('9' as u32) == 57);
    }
}

/// The decimal digits of `n` are digits and denote `n`.
pub proof fn lemma_dec_digits_props(n: nat)
    ensures
        is_digits(dec_digits(n)),
        digits_val(dec_digits(n)) == n,
        is_digit(dec_digits(n)[0]),
    decreases n,
{
    lemma_digit_char_val(n % 10);
    if n < 10 {
        lemma_digit_char_val(n);
        assert(dec_digits(n) == seq![digit_char(n)]);
        assert(seq![digit_char(n)].drop_last() =~= Seq::<char>::empty());
        assert(seq![digit_char(n)].last() == digit_char(n));
        assert(digits_val(Seq::<char>::empty()) == 0);
        assert(digits_val(seq![digit_char(n)]) == digits_val(seq![digit_char(n)].drop_last()) * 10
            + digit_val(seq![digit_char(n)].last()));
        assert(dec_digits(n)[0] == digit_char(n));
    } else {
        lemma_dec_digits_props(n / 10);
        assert(dec_digits(n).drop_last() =~= dec_digits(n / 10));
        assert(dec_digits(n).last() == digit_char(n % 10));
        assert(digits_val(dec_digits(n)) == digits_val(dec_digits(n).drop_last()) * 10 + digit_val(
            dec_digits(n).last(),
        ));
        assert((n / 10) * 10 + (n % 10) == n);
        assert forall|i: int| 0 <= i < dec_digits(n).len() implies is_digit(
            #[trigger] dec_digits(n)[i],
        ) by {
            if i < dec_digits(n / 10).len() {
                assert(dec_digits(n)[i] == dec_digits(n / 10)[i]);
            }
        }
    }
}

/// An integer's decimal text coerces back to that integer.
pub proof fn lemma_coerce_int(i: i64)
    ensures
        coerce_model(int_chars(i as int)) == ValModel::MInt(i as int),
{
    let s = int_chars(i as int);
    reveal_strlit("null");
    reveal_strlit("true");
    reveal_strlit("false");
    if i >= 0 {
        lemma_dec_digits_props(i as nat);
        assert(s == dec_digits(i as nat));
        assert(is_digit(s[0]));
        assert(s != "null"@ && s != "true"@ && s != "false"@) by {
            if s == "null"@ {
                assert(s[0] == 'n');
            }
            if s == "true"@ {
                assert(s[0] == 't');
            }
            if s == "false"@ {
                assert(s[0] == 'f');
            }
        }
        assert(int_literal_body(s) == s);
        assert(!int_literal_negative(s));
        assert(is_int_literal(s));
        assert(int_value(s) == i as int);
    } else {
        let mag = (-(i as int)) as nat;
        lemma_dec_digits_props(mag);
        assert(s == seq!['-'] + dec_digits(mag));
        assert(s[0] == '-');
        assert(s != "null"@ && s != "true"@ && s != "false"@) by {
            if s == "null"@ {
                assert(s[0] == 'n');
            }
            if s == "true"@ {
                assert(s[0] == 't');
            }
            if s == "false"@ {
                assert(s[0] == 'f');
            }
        }
        assert(int_literal_body(s) =~= dec_digits(mag));
        assert(int_literal_negative(s));
        assert(is_int_literal(s));
        assert(int_value(s) == i as int);
    }
}

/// The boolean and null literals coerce back to themselves.
pub proof fn lemma_coerce_literals()
    ensures
        coerce_model("true"@) == ValModel::MBool(true),
        coerce_model("false"@) == ValModel::MBool(false),
        coerce_model("null"@) == ValModel::MNull,
{
    reveal_strlit("null");
    reveal_strlit("true");
    reveal_strlit("false");
    assert("true"@ != "null"@) by {
        assert("true"@[0] == 't');
    }
    assert("false"@ != "null"@ && "false"@ != "true"@) by {
        assert("false"@.len() == 5);
    }
}

// ---------- escaping is the identity on plain text ----------

/// Text without backslashes or double quotes.
pub open spec fn no_escapables(s: Seq<char>) -> bool {
    forall|i: int| 0 <= i < s.len() ==> (#[trigger] s[i]) != '"' && s[i] != '\\'
}

pub proof fn lemma_escape_logfmt_id(s: Seq<char>)
    requires
        no_escapables(s),
    ensures
        escape_logfmt(s) == s,
    decreases s.len(),
{
    if s.len() == 0 {
        assert(escape_logfmt(s) =~= s);
    } else {
        lemma_escape_logfmt_id(s.drop_last());
        assert(s.drop_last().push(s.last()) =~= s);
        assert(escape_logfmt(s) =~= s.drop_last() + seq![s.last()]);
    }
}

// ---------- the scan finds every well-formed token ----------

/// One `key=value` token as the formatter lays it down.
pub struct Token {
    pub key: Seq<char>,
    pub inner: Seq<char>,
    pub quoted: bool,
}

/// The text of one token on the line.
pub open spec fn token_text(t: Token) -> Seq<char> {
    if t.quoted {
        t.key + seq!['='] + seq!['"'] + t.inner + seq!['"']
    } else {
        t.key + seq!['='] + t.inner
    }
}

/// A name the scanner accepts as a key.
pub open spec fn valid_key(k: Seq<char>) -> bool {
    &&& k.len() > 0
    &&& is_key_start(k[0])
    &&& forall|i: int| 0 <= i < k.len() ==> is_key_char(#[trigger] k[i])
}

/// A token the scanner reads back exactly: a valid key, and a value that is
/// either quoted without inner quotes, or bare, non-empty, without
/// whitespace and not opening with a quote.
pub open spec fn wf_token(t: Token) -> bool {
    &&& valid_key(t.key)
    &&& if t.quoted {
        forall|i: int| 0 <= i < t.inner.len() ==> (#[trigger] t.inner[i]) != '"'
    } else {
        &&& t.inner.len() > 0
        &&& t.inner[0] != '"'
        &&& forall|i: int| 0 <= i < t.inner.len() ==> !is_space(#[trigger] t.inner[i])
    }
}

/// Tokens joined with single spaces.
pub open spec fn joined_tokens(toks: Seq<Token>) -> Seq<char>
    decreases toks.len(),
{
    if toks.len() == 0 {
        Seq::empty()
    } else if toks.len() == 1 {
        token_text(toks[0])
    } else {
        token_text(toks[0]) + seq![' '] + joined_tokens(toks.drop_first())
    }
}

proof fn lemma_key_run_stretch(s: Seq<char>, p: int, q: int)
    requires
        0 <= p <= q <= s.len(),
        forall|j: int| p <= j < q ==> is_key_char(#[trigger] s[j]),
        q < s.len() ==> !is_key_char(s[q]),
    ensures
        key_run_end(s, p) == q,
    decreases q - p,
{
    if p < q {
        lemma_key_run_stretch(s, p + 1, q);
    }
}

proof fn lemma_nonspace_stretch(s: Seq<char>, p: int, q: int)
    requires
        0 <= p <= q <= s.len(),
        forall|j: int| p <= j < q ==> !is_space(#[trigger] s[j]),
        q < s.len() ==> is_space(s[q]),
    ensures
        nonspace_run_end(s, p) == q,
    decreases q - p,
{
    if p < q {
        lemma_nonspace_stretch(s, p + 1, q);
    }
}

proof fn lemma_find_quote_stretch(s: Seq<char>, p: int, q: int)
    requires
        0 <= p <= q < s.len(),
        forall|j: int| p <= j < q ==> (#[trigger] s[j]) != '"',
        s[q] == '"',
    ensures
        find_quote(s, p) == Some(q),
    decreases q - p,
{
    if p < q {
        lemma_find_quote_stretch(s, p + 1, q);
    }
}

/// Where each character of a token's text comes from.
proof fn lemma_token_text_index(t: Token)
    ensures
        token_text(t).len() == t.key.len() + 1 + t.inner.len() + (if t.quoted {
            2int
        } else {
            0int
        }),
        forall|i: int| 0 <= i < t.key.len() ==> token_text(t)[i] == t.key[i],
        token_text(t)[t.key.len() as int] == '=',
        t.quoted ==> token_text(t)[t.key.len() as int + 1] == '"',
        t.quoted ==> forall|i: int|
            0 <= i < t.inner.len() ==> token_text(t)[t.key.len() + 2 + i] == t.inner[i],
        t.quoted ==> token_text(t)[t.key.len() + 2 + t.inner.len() as int] == '"',
        !t.quoted ==> forall|i: int|
            0 <= i < t.inner.len() ==> token_text(t)[t.key.len() + 1 + i] == t.inner[i],
{
    let tt = token_text(t);
    if t.quoted {
        assert(tt =~= t.key + seq!['='] + seq!['"'] + t.inner + seq!['"']);
        assert forall|i: int| 0 <= i < t.key.len() implies tt[i] == t.key[i] by {}
        assert forall|i: int| 0 <= i < t.inner.len() implies tt[t.key.len() + 2 + i]
            == t.inner[i] by {}
    } else {
        assert(tt =~= t.key + seq!['='] + t.inner);
        assert forall|i: int| 0 <= i < t.key.len() implies tt[i] == t.key[i] by {}
        assert forall|i: int| 0 <= i < t.inner.len() implies tt[t.key.len() + 1 + i]
            == t.inner[i] by {}
    }
}

/// At the start of a well-formed token followed by a space or the line end,
/// the scan matches exactly that token.
proof fn lemma_try_match_token(s: Seq<char>, p: int, t: Token)
    requires
        0 <= p,
        p + token_text(t).len() <= s.len(),
        s.subrange(p, p + token_text(t).len()) == token_text(t),
        wf_token(t),
        p + token_text(t).len() == s.len() || is_space(s[p + token_text(t).len()]),
    ensures
        try_match(s, p) == Some((t.key, t.inner, p + token_text(t).len())),
{
    let tt = token_text(t);
    let e = p + tt.len();
    let klen = t.key.len() as int;
    lemma_token_text_index(t);
    assert forall|i: int| 0 <= i < tt.len() implies s[p + i] == tt[i] by {
        assert(s.subrange(p, e)[i] == s[p + i]);
    }
    assert(!is_key_char('='));
    assert(s[p] == tt[0]);
    assert(s[p] == t.key[0]);
    assert forall|j: int| p + 1 <= j < p + klen implies is_key_char(#[trigger] s[j]) by {
        assert(s[j] == tt[j - p]);
        assert(tt[j - p] == t.key[j - p]);
    }
    assert(s[p + klen] == '=');
    lemma_key_run_stretch(s, p + 1, p + klen);
    let vs = p + klen + 1;
    if t.quoted {
        assert(s[vs] == '"');
        let qpos = vs + 1 + t.inner.len();
        assert forall|j: int| vs + 1 <= j < qpos implies (#[trigger] s[j]) != '"' by {
            assert(s[j] == tt[j - p]);
            assert(tt[j - p] == t.inner[j - (vs + 1)]);
        }
        assert(s[qpos] == tt[qpos - p]);
        assert(tt[qpos - p] == '"');
        lemma_find_quote_stretch(s, vs + 1, qpos);
        assert(s.subrange(p, p + klen) =~= t.key);
        assert(s.subrange(vs + 1, qpos) =~= t.inner);
        assert(try_match(s, p) == Some((t.key, t.inner, e)));
    } else {
        assert(s[vs] == tt[vs - p]);
        assert(tt[vs - p] == t.inner[0]);
        assert(s[vs] != '"');
        assert forall|j: int| vs <= j < e implies !is_space(#[trigger] s[j]) by {
            assert(s[j] == tt[j - p]);
            assert(tt[j - p] == t.inner[j - vs]);
        }
        lemma_nonspace_stretch(s, vs, e);
        assert(s.subrange(p, p + klen) =~= t.key);
        assert(s.subrange(vs, e) =~= t.inner);
        assert(try_match(s, p) == Some((t.key, t.inner, e)));
    }
}

/// Scanning a line of well-formed tokens joined by single spaces yields
/// exactly those tokens' keys and values, in order.
proof fn lemma_scan_joined(s: Seq<char>, p: int, toks: Seq<Token>)
    requires
        0 <= p <= s.len(),
        s.skip(p) == joined_tokens(toks),
        forall|u: int| 0 <= u < toks.len() ==> wf_token(#[trigger] toks[u]),
    ensures
        scan_pairs(s, p) == toks.map_values(|t: Token| (t.key, t.inner)),
    decreases toks.len(),
{
    let f = |t: Token| (t.key, t.inner);
    if toks.len() == 0 {
        assert(s.skip(p).len() == 0);
        assert(p == s.len());
        assert(scan_pairs(s, p) =~= toks.map_values(f));
    } else {
        let t0 = toks[0];
        let tt = token_text(t0);
        let e = p + tt.len();
        assert(tt.len() >= 2);
        assert forall|i: int| 0 <= i < s.skip(p).len() implies s.skip(p)[i] == s[p + i] by {}
        if toks.len() == 1 {
            assert(s.skip(p) == tt);
            assert(e == s.len());
            assert(s.subrange(p, e) =~= tt);
            lemma_try_match_token(s, p, t0);
            assert(scan_pairs(s, p) == seq![(t0.key, t0.inner)] + scan_pairs(s, e));
            assert(scan_pairs(s, e) =~= Seq::<(Seq<char>, Seq<char>)>::empty());
            assert(seq![(t0.key, t0.inner)] + scan_pairs(s, e) =~= toks.map_values(f));
        } else {
            assert(s.skip(p) == tt + seq![' '] + joined_tokens(toks.drop_first()));
            assert(s.subrange(p, e) =~= tt) by {
                assert forall|i: int| 0 <= i < tt.len() implies s.subrange(p, e)[i] == tt[i] by {
                    assert(s.subrange(p, e)[i] == s[p + i]);
                    assert(s[p + i] == s.skip(p)[i]);
                }
            }
            assert(s[e] == s.skip(p)[tt.len() as int]);
            assert(s[e] == ' ');
            lemma_try_match_token(s, p, t0);
            assert(scan_pairs(s, p) == seq![(t0.key, t0.inner)] + scan_pairs(s, e));
            // one separating space, which starts no token
            assert(!is_key_start(' '));
            assert(e < s.len());
            assert(try_match(s, e) is None);
            assert(scan_pairs(s, e) == scan_pairs(s, e + 1));
            assert(s.skip(e + 1) =~= joined_tokens(toks.drop_first())) by {
                assert forall|i: int| 0 <= i < s.skip(e + 1).len() implies s.skip(e + 1)[i]
                    == joined_tokens(toks.drop_first())[i] by {
                    assert(s.skip(e + 1)[i] == s[e + 1 + i]);
                    assert(s[e + 1 + i] == s.skip(p)[tt.len() + 1 + i]);
                }
            }
            lemma_scan_joined(s, e + 1, toks.drop_first());
            assert(seq![(t0.key, t0.inner)] + toks.drop_first().map_values(f) =~= toks.map_values(
                f,
            ));
        }
    }
}

// ---------- the formatter's line is such a token line ----------

proof fn lemma_joined_tokens_push(toks: Seq<Token>, t: Token)
    requires
        toks.len() >= 1,
    ensures
        joined_tokens(toks.push(t)) == joined_tokens(toks) + seq![' '] + token_text(t),
    decreases toks.len(),
{
    if toks.len() == 1 {
        assert(toks.push(t).drop_first() =~= seq![t]);
        assert(toks.push(t)[0] == toks[0]);
        assert(joined_tokens(seq![t]) == token_text(t));
    } else {
        lemma_joined_tokens_push(toks.drop_first(), t);
        assert(toks.push(t).drop_first() =~= toks.drop_first().push(t));
        assert(toks.push(t)[0] == toks[0]);
        assert(token_text(toks[0]) + seq![' '] + (joined_tokens(toks.drop_first()) + seq![' ']
            + token_text(t)) =~= (token_text(toks[0]) + seq![' '] + joined_tokens(
            toks.drop_first(),
        )) + seq![' '] + token_text(t));
    }
}

/// Parts joined with single spaces read as one token after another.
proof fn lemma_join_eq(toks: Seq<Token>)
    ensures
        join_sep(toks.map_values(|t: Token| token_text(t)), " "@) == joined_tokens(toks),
    decreases toks.len(),
{
    reveal_strlit(" ");
    let f = |t: Token| token_text(t);
    if toks.len() == 0 {
    } else if toks.len() == 1 {
        assert(toks.map_values(f)[0] == token_text(toks[0]));
    } else {
        let prefix = toks.drop_last();
        lemma_join_eq(prefix);
        lemma_joined_tokens_push(prefix, toks.last());
        assert(prefix.push(toks.last()) =~= toks);
        assert(toks.map_values(f).drop_last() =~= prefix.map_values(f));
        assert(toks.map_values(f).last() == token_text(toks.last()));
        assert(" "@ =~= seq![' ']);
    }
}

// ---------- sorting keeps the elements and their unique names ----------

proof fn lemma_insert_sorted_elements(g: FieldsModel, p: (Seq<char>, ValModel))
    ensures
        insert_sorted(g, p).len() == g.len() + 1,
        forall|q: int|
            0 <= q < insert_sorted(g, p).len() ==> (#[trigger] insert_sorted(g, p)[q]) == p
                || exists|w: int| 0 <= w < g.len() && g[w] == insert_sorted(g, p)[q],
    decreases g.len(),
{
    if g.len() == 0 {
    } else if lex_le(p.0, g[0].0) {
        assert forall|q: int| 0 <= q < insert_sorted(g, p).len() implies (#[trigger] insert_sorted(
            g,
            p,
        )[q]) == p || exists|w: int| 0 <= w < g.len() && g[w] == insert_sorted(g, p)[q] by {
            if q > 0 {
                assert(g[q - 1] == insert_sorted(g, p)[q]);
            }
        }
    } else {
        lemma_insert_sorted_elements(g.drop_first(), p);
        assert forall|q: int| 0 <= q < insert_sorted(g, p).len() implies (#[trigger] insert_sorted(
            g,
            p,
        )[q]) == p || exists|w: int| 0 <= w < g.len() && g[w] == insert_sorted(g, p)[q] by {
            if q == 0 {
                assert(g[0] == insert_sorted(g, p)[0]);
            } else {
                let e = insert_sorted(g, p)[q];
                assert(e == insert_sorted(g.drop_first(), p)[q - 1]);
                if e != p {
                    let w = choose|w: int|
                        0 <= w < g.drop_first().len() && #[trigger] g.drop_first()[w] == e;
                    assert(g[w + 1] == e);
                }
            }
        }
    }
}

proof fn lemma_sort_fields_elements(f: FieldsModel)
    ensures
        sort_fields(f).len() == f.len(),
        forall|q: int|
            0 <= q < sort_fields(f).len() ==> exists|w: int|
                0 <= w < f.len() && f[w] == (#[trigger] sort_fields(f)[q]),
    decreases f.len(),
{
    if f.len() > 0 {
        lemma_sort_fields_elements(f.drop_last());
        lemma_insert_sorted_elements(sort_fields(f.drop_last()), f.last());
        assert forall|q: int| 0 <= q < sort_fields(f).len() implies exists|w: int|
            0 <= w < f.len() && f[w] == (#[trigger] sort_fields(f)[q]) by {
            let e = sort_fields(f)[q];
            if e == f.last() {
                assert(f[f.len() - 1] == e);
            } else {
                let v = choose|v: int|
                    0 <= v < sort_fields(f.drop_last()).len() && #[trigger] sort_fields(
                        f.drop_last(),
                    )[v] == e;
                let w = choose|w: int|
                    0 <= w < f.drop_last().len() && #[trigger] f.drop_last()[w] == e;
                assert(f[w] == e);
            }
        }
    }
}

proof fn lemma_insert_sorted_unique(g: FieldsModel, p: (Seq<char>, ValModel))
    requires
        keys_unique(g),
        forall|w: int| 0 <= w < g.len() ==> (#[trigger] g[w]).0 != p.0,
    ensures
        keys_unique(insert_sorted(g, p)),
        forall|q: int|
            0 <= q < insert_sorted(g, p).len() ==> (#[trigger] insert_sorted(g, p)[q]).0 == p.0
                || exists|w: int| 0 <= w < g.len() && g[w].0 == insert_sorted(g, p)[q].0,
    decreases g.len(),
{
    lemma_insert_sorted_elements(g, p);
    assert forall|q: int| 0 <= q < insert_sorted(g, p).len() implies (#[trigger] insert_sorted(
        g,
        p,
    )[q]).0 == p.0 || exists|w: int| 0 <= w < g.len() && g[w].0 == insert_sorted(g, p)[q].0 by {
        if insert_sorted(g, p)[q] != p {
            let w = choose|w: int| 0 <= w < g.len() && #[trigger] g[w] == insert_sorted(g, p)[q];
            assert(g[w].0 == insert_sorted(g, p)[q].0);
        }
    }
    if g.len() == 0 {
    } else if lex_le(p.0, g[0].0) {
        let u = insert_sorted(g, p);
        assert forall|a: int, b: int| 0 <= a < b < u.len() implies (#[trigger] u[a]).0 != (
        #[trigger] u[b]).0 by {
            if a > 0 {
                assert(u[a] == g[a - 1]);
                assert(u[b] == g[b - 1]);
            } else {
                assert(u[b] == g[b - 1]);
            }
        }
    } else {
        lemma_insert_sorted_unique(g.drop_first(), p);
        let u = insert_sorted(g, p);
        let ud = insert_sorted(g.drop_first(), p);
        assert forall|a: int, b: int| 0 <= a < b < u.len() implies (#[trigger] u[a]).0 != (
        #[trigger] u[b]).0 by {
            if a == 0 {
                assert(u[b] == ud[b - 1]);
                if ud[b - 1].0 == g[0].0 {
                    if ud[b - 1].0 != p.0 {
                        let w = choose|w: int|
                            0 <= w < g.drop_first().len() && #[trigger] g.drop_first()[w].0 == ud[b
                                - 1].0;
                        assert(g[w + 1].0 == g[0].0);
                    }
                }
            } else {
                assert(u[a] == ud[a - 1]);
                assert(u[b] == ud[b - 1]);
            }
        }
    }
}

proof fn lemma_sort_fields_unique(f: FieldsModel)
    requires
        keys_unique(f),
    ensures
        keys_unique(sort_fields(f)),
    decreases f.len(),
{
    if f.len() > 0 {
        lemma_sort_fields_unique(f.drop_last());
        lemma_sort_fields_elements(f.drop_last());
        assert forall|w: int| 0 <= w < sort_fields(f.drop_last()).len() implies (
        #[trigger] sort_fields(f.drop_last())[w]).0 != f.last().0 by {
            let v = choose|v: int|
                0 <= v < f.drop_last().len() && #[trigger] f.drop_last()[v] == sort_fields(
                    f.drop_last(),
                )[w];
            assert(f[v] == sort_fields(f.drop_last())[w]);
            assert(f[v].0 != f[f.len() - 1].0);
        }
        lemma_insert_sorted_unique(sort_fields(f.drop_last()), f.last());
    }
}

/// A field map with no alias names passes the alias filter unchanged.
proof fn lemma_drop_alias_id(f: FieldsModel)
    requires
        forall|i: int| 0 <= i < f.len() ==> !is_core_alias((#[trigger] f[i]).0),
    ensures
        drop_alias_fields(f) == f,
    decreases f.len(),
{
    if f.len() > 0 {
        lemma_drop_alias_id(f.drop_last());
        assert(!is_core_alias(f[f.len() - 1].0));
        assert(f.drop_last().push(f.last()) =~= f);
    }
}

// ---------- the round-trip statement ----------

/// Text that coerces back to itself and needs no escaping.
pub open spec fn plain_text_token(s: Seq<char>) -> bool {
    coerce_model(s) == ValModel::MText(s) && no_escapables(s)
}

/// Values whose rendering coerces back to them: text that stays text, exact
/// integers, booleans and null. A double's display text may re-coerce as an
/// integer, so doubles are left out.
pub open spec fn value_round_trippable(v: ValModel) -> bool {
    match v {
        ValModel::MText(s) => plain_text_token(s),
        ValModel::MInt(i) => -0x8000_0000_0000_0000 <= i <= 0x7fff_ffff_ffff_ffff,
        ValModel::MDec(_, _) => false,
        ValModel::MBool(_) => true,
        ValModel::MNull => true,
    }
}

/// Events whose logfmt rendering parses back losslessly: no timestamp (its
/// text goes through the clock library on both sides), level and message
/// plain text, field names valid non-alias keys, and field values whose
/// renderings coerce back to them.
pub open spec fn round_trippable(m: EventModel) -> bool {
    &&& m.timestamp is None
    &&& match m.level {
        Some(l) => plain_text_token(l),
        None => true,
    }
    &&& match m.message {
        Some(x) => plain_text_token(x),
        None => true,
    }
    &&& keys_unique(m.fields)
    &&& forall|i: int|
        0 <= i < m.fields.len() ==> {
            &&& valid_key((#[trigger] m.fields[i]).0)
            &&& !is_core_alias(m.fields[i].0)
            &&& value_round_trippable(m.fields[i].1)
        }
}

/// The token one field becomes on the line.
pub open spec fn field_token(p: (Seq<char>, ValModel)) -> Token {
    match p.1 {
        ValModel::MText(s) => Token { key: p.0, inner: s, quoted: true },
        _ => Token { key: p.0, inner: render_logfmt_value(p.1), quoted: false },
    }
}

/// The tokens of the formatted line: level, message, then the fields in
/// name order.
pub open spec fn tokens_of(m: EventModel) -> Seq<Token> {
    let t0 = Seq::<Token>::empty();
    let t1 = match m.level {
        Some(l) => t0.push(Token { key: "level"@, inner: l, quoted: true }),
        None => t0,
    };
    let t2 = match m.message {
        Some(x) => t1.push(Token { key: "message"@, inner: x, quoted: true }),
        None => t1,
    };
    t2 + sort_fields(m.fields).map_values(|p: (Seq<char>, ValModel)| field_token(p))
}

/// The formatted parts are exactly the token texts.
proof fn lemma_parts_are_tokens(m: EventModel)
    requires
        round_trippable(m),
    ensures
        logfmt_parts(m) == tokens_of(m).map_values(|t: Token| token_text(t)),
{
    reveal_strlit("level");
    reveal_strlit("level=\"");
    reveal_strlit("message");
    reveal_strlit("message=\"");
    reveal_strlit("=");
    reveal_strlit("\"");
    let g = |t: Token| token_text(t);
    let fp = |p: (Seq<char>, ValModel)| field_token(p);
    lemma_drop_alias_id(m.fields);
    let sorted = sort_fields(m.fields);
    lemma_sort_fields_elements(m.fields);
    // core parts
    match m.level {
        Some(l) => {
            assert("level=\""@ + l + "\""@ =~= token_text(
                Token { key: "level"@, inner: l, quoted: true },
            ));
        },
        None => {
        },
    }
    match m.message {
        Some(x) => {
            lemma_escape_logfmt_id(x);
            assert("message=\""@ + escape_logfmt(x) + "\""@ =~= token_text(
                Token { key: "message"@, inner: x, quoted: true },
            ));
        },
        None => {
        },
    }
    // field parts
    assert forall|q: int| 0 <= q < sorted.len() implies rendered_logfmt_fields(sorted)[q]
        == token_text(field_token(#[trigger] sorted[q])) by {
        let p = sorted[q];
        let w = choose|w: int| 0 <= w < m.fields.len() && #[trigger] m.fields[w] == p;
        assert(value_round_trippable(m.fields[w].1));
        match p.1 {
            ValModel::MText(s) => {
                lemma_escape_logfmt_id(s);
                assert(p.0 + "="@ + (seq!['"'] + escape_logfmt(s) + seq!['"']) =~= token_text(
                    Token { key: p.0, inner: s, quoted: true },
                ));
            },
            _ => {
                assert(p.0 + "="@ + render_logfmt_value(p.1) =~= token_text(
                    Token { key: p.0, inner: render_logfmt_value(p.1), quoted: false },
                ));
            },
        }
    }
    assert(logfmt_parts(m) =~~= tokens_of(m).map_values(g));
}

/// Characters of the decimal text of an integer: never whitespace, never a
/// quote.
proof fn lemma_int_chars_bare(i: int)
    ensures
        int_chars(i).len() > 0,
        int_chars(i)[0] != '"',
        forall|j: int| 0 <= j < int_chars(i).len() ==> !is_space(#[trigger] int_chars(i)[j]),
        forall|j: int| 0 <= j < int_chars(i).len() ==> (#[trigger] int_chars(i)[j]) != '"',
{
    if i < 0 {
        lemma_dec_digits_props((-i) as nat);
        assert forall|j: int| 0 <= j < int_chars(i).len() implies !is_space(
            #[trigger] int_chars(i)[j],
        ) && int_chars(i)[j] != '"' by {
            if j > 0 {
                assert(int_chars(i)[j] == dec_digits((-i) as nat)[j - 1]);
                assert(is_digit(dec_digits((-i) as nat)[j - 1]));
            }
        }
    } else {
        lemma_dec_digits_props(i as nat);
        assert forall|j: int| 0 <= j < int_chars(i).len() implies !is_space(
            #[trigger] int_chars(i)[j],
        ) && int_chars(i)[j] != '"' by {
            assert(is_digit(dec_digits(i as nat)[j]));
        }
    }
}

/// Every token of a round-trippable event is well formed.
proof fn lemma_tokens_wf(m: EventModel)
    requires
        round_trippable(m),
    ensures
        forall|u: int| 0 <= u < tokens_of(m).len() ==> wf_token(#[trigger] tokens_of(m)[u]),
{
    reveal_strlit("level");
    reveal_strlit("message");
    reveal_strlit("true");
    reveal_strlit("false");
    reveal_strlit("null");
    lemma_sort_fields_elements(m.fields);
    let toks = tokens_of(m);
    assert(valid_key("level"@)) by {
        assert forall|i: int| 0 <= i < "level"@.len() implies is_key_char(
            #[trigger] "level"@[i],
        ) by {
            if i == 0 {
            } else if i == 1 {
            } else if i == 2 {
            } else if i == 3 {
            } else {
                assert(i == 4);
            }
        }
    }
    assert(valid_key("message"@)) by {
        assert forall|i: int| 0 <= i < "message"@.len() implies is_key_char(
            #[trigger] "message"@[i],
        ) by {
            if i == 0 {
            } else if i == 1 {
            } else if i == 2 {
            } else if i == 3 {
            } else if i == 4 {
            } else if i == 5 {
            } else {
                assert(i == 6);
            }
        }
    }
    assert forall|u: int| 0 <= u < toks.len() implies wf_token(#[trigger] toks[u]) by {
        let sorted = sort_fields(m.fields);
        let core_n = toks.len() - sorted.len();
        if u >= core_n {
            let p = sorted[u - core_n];
            assert(toks[u] == field_token(p));
            let w = choose|w: int| 0 <= w < m.fields.len() && #[trigger] m.fields[w] == p;
            assert(valid_key(p.0) && value_round_trippable(p.1));
            match p.1 {
                ValModel::MText(_) => {
                },
                ValModel::MInt(i) => {
                    lemma_int_chars_bare(i);
                },
                ValModel::MBool(b) => {
                    if b {
                        assert forall|j: int| 0 <= j < "true"@.len() implies !is_space(
                            #[trigger] "true"@[j],
                        ) by {
                            if j == 0 {
                            } else if j == 1 {
                            } else if j == 2 {
                            } else {
                                assert(j == 3);
                            }
                        }
                    } else {
                        assert forall|j: int| 0 <= j < "false"@.len() implies !is_space(
                            #[trigger] "false"@[j],
                        ) by {
                            if j == 0 {
                            } else if j == 1 {
                            } else if j == 2 {
                            } else if j == 3 {
                            } else {
                                assert(j == 4);
                            }
                        }
                    }
                },
                ValModel::MNull => {
                    assert forall|j: int| 0 <= j < "null"@.len() implies !is_space(
                        #[trigger] "null"@[j],
                    ) by {
                        if j == 0 {
                        } else if j == 1 {
                        } else if j == 2 {
                        } else {
                            assert(j == 3);
                        }
                    }
                },
                ValModel::MDec(_, _) => {
                },
            }
        }
    }
}

// ---------- the scanned pairs build back the field map ----------

/// With pairwise distinct names, the pair list builds the field map of the
/// coerced pairs, in order.
proof fn lemma_fields_of_pairs_map(pairs: Seq<(Seq<char>, Seq<char>)>)
    requires
        forall|a: int, b: int|
            0 <= a < b < pairs.len() ==> (#[trigger] pairs[a]).0 != (#[trigger] pairs[b]).0,
    ensures
        fields_of_pairs(pairs) == pairs.map_values(
            |p: (Seq<char>, Seq<char>)| (p.0, coerce_model(p.1)),
        ),
    decreases pairs.len(),
{
    let f = |p: (Seq<char>, Seq<char>)| (p.0, coerce_model(p.1));
    if pairs.len() == 0 {
        assert(fields_of_pairs(pairs) =~= pairs.map_values(f));
    } else {
        let front = pairs.drop_last();
        assert(forall|a: int, b: int|
            0 <= a < b < front.len() ==> (#[trigger] front[a]).0 != (#[trigger] front[b]).0);
        lemma_fields_of_pairs_map(front);
        let last = pairs.last();
        assert(!has_key(front.map_values(f), last.0)) by {
            if has_key(front.map_values(f), last.0) {
                lemma_lookup_some_index(front.map_values(f), last.0);
                let w = choose|w: int|
                    0 <= w < front.map_values(f).len() && (#[trigger] front.map_values(f)[w]).0
                        == last.0;
                assert(pairs[w].0 == pairs[pairs.len() - 1].0);
            }
        }
        lemma_upsert_absent(front.map_values(f), last.0, coerce_model(last.1));
        assert(front.map_values(f).push((last.0, coerce_model(last.1))) =~= pairs.map_values(f));
    }
}

/// No alias of the list is present among the names: the alias search is
/// empty-handed.
proof fn lemma_first_present_none(fields: FieldsModel, aliases: Seq<Seq<char>>)
    requires
        forall|u: int| 0 <= u < aliases.len() ==> !has_key(fields, #[trigger] aliases[u]),
    ensures
        first_present(fields, aliases) is None,
    decreases aliases.len(),
{
    if aliases.len() > 0 {
        lemma_first_present_none(fields, aliases.drop_first());
    }
}

/// The logfmt round trip: the line the default formatter writes for an
/// event parses back to that event, with its fields returned in name order.
/// Holds for events without a timestamp whose level, message and text field
/// values coerce back to themselves and need no escaping, whose field names
/// are valid non-alias keys, and whose field values carry no double
/// (a double's display text can re-coerce as an integer).
#[verifier::rlimit(100)]
pub proof fn lemma_logfmt_round_trip(m: EventModel)
    requires
        round_trippable(m),
    ensures
        logfmt_model(logfmt_output(m)) == (EventModel {
            timestamp: None,
            level: m.level,
            message: m.message,
            fields: sort_fields(m.fields),
        }),
{
    reveal_strlit("level");
    reveal_strlit("message");
    let toks = tokens_of(m);
    let out = logfmt_output(m);
    let sorted = sort_fields(m.fields);
    lemma_parts_are_tokens(m);
    lemma_join_eq(toks);
    assert(out == joined_tokens(toks));
    lemma_tokens_wf(m);
    assert(out.skip(0) =~= out);
    lemma_scan_joined(out, 0, toks);
    let pairs = toks.map_values(|t: Token| (t.key, t.inner));
    assert(scan_pairs(out, 0) == pairs);
    // the scanned names are pairwise distinct
    lemma_sort_fields_unique(m.fields);
    lemma_sort_fields_elements(m.fields);
    let core_n = toks.len() - sorted.len();
    assert(is_core_alias("level"@)) by {
        assert(level_aliases()[0] == "level"@);
        assert(level_aliases().contains("level"@));
    }
    assert(is_core_alias("message"@)) by {
        assert(message_aliases()[0] == "message"@);
        assert(message_aliases().contains("message"@));
    }
    assert("level"@ != "message"@) by {
        assert("level"@.len() == 5);
        assert("message"@.len() == 7);
    }
    assert forall|q: int| 0 <= q < sorted.len() implies !is_core_alias(
        (#[trigger] sorted[q]).0,
    ) && valid_key(sorted[q].0) && value_round_trippable(sorted[q].1) by {
        let w = choose|w: int| 0 <= w < m.fields.len() && #[trigger] m.fields[w] == sorted[q];
    }
    assert forall|a: int, b: int| 0 <= a < b < pairs.len() implies (#[trigger] pairs[a]).0 != (
    #[trigger] pairs[b]).0 by {
        if b >= core_n {
            assert(pairs[b].0 == sorted[b - core_n].0);
            if a >= core_n {
                assert(pairs[a].0 == sorted[a - core_n].0);
            } else {
                assert(pairs[a].0 == "level"@ || pairs[a].0 == "message"@);
            }
        } else {
            assert(pairs[a].0 == "level"@ && pairs[b].0 == "message"@);
        }
    }
    lemma_fields_of_pairs_map(pairs);
    let cf = |p: (Seq<char>, Seq<char>)| (p.0, coerce_model(p.1));
    let r = pairs.map_values(cf);
    // the coerced pairs are the core pairs and then the sorted fields
    lemma_coerce_literals();
    assert forall|q: int| core_n <= q < r.len() implies #[trigger] r[q] == sorted[q - core_n] by {
        let p = sorted[q - core_n];
        assert(pairs[q] == (field_token(p).key, field_token(p).inner));
        match p.1 {
            ValModel::MText(_) => {
            },
            ValModel::MInt(i) => {
                assert(value_round_trippable(p.1));
                assert(i as i64 as int == i);
                lemma_coerce_int(i as i64);
                assert(coerce_model(int_chars(i)) == ValModel::MInt(i));
            },
            ValModel::MBool(_) => {
            },
            ValModel::MNull => {
            },
            ValModel::MDec(_, _) => {
            },
        }
    }
    let core_fields: FieldsModel = {
        let c0 = Seq::<(Seq<char>, ValModel)>::empty();
        let c1 = match m.level {
            Some(l) => c0.push(("level"@, ValModel::MText(l))),
            None => c0,
        };
        match m.message {
            Some(x) => c1.push(("message"@, ValModel::MText(x))),
            None => c1,
        }
    };
    assert(r =~= core_fields + sorted);
    // no timestamp alias occurs among the names
    let rm = EventModel { timestamp: None, level: None, message: None, fields: r };
    assert(logfmt_model(out) == extract_model(rm));
    lemma_no_ts_alias(r, core_fields, sorted);
    lemma_first_present_none(r, ts_aliases());
    assert(promote_timestamp(rm) == rm);
    // the level comes back
    let rm2 = promote_level(rm);
    if m.level is Some {
        let l = m.level.unwrap();
        assert(r[0] == ("level"@, ValModel::MText(l)));
        assert(has_key(r, "level"@));
        assert(level_aliases()[0] == "level"@);
        assert(first_present(r, level_aliases()) == Some("level"@));
        assert(lookup(r, "level"@) == Some(ValModel::MText(l)));
        assert(remove_key(r, "level"@) == r.drop_first());
        assert(rm2 == EventModel {
            timestamp: None,
            level: Some(l),
            message: None,
            fields: r.drop_first(),
        });
    } else {
        lemma_no_level_alias(r, core_fields, sorted);
        lemma_first_present_none(r, level_aliases());
        assert(rm2 == rm);
    }
    let r2 = rm2.fields;
    assert(r2 =~= (match m.message {
        Some(x) => seq![("message"@, ValModel::MText(x))],
        None => Seq::<(Seq<char>, ValModel)>::empty(),
    }) + sorted);
    // the message comes back
    let rm3 = promote_message(rm2);
    if m.message is Some {
        let x = m.message.unwrap();
        assert(r2[0] == ("message"@, ValModel::MText(x)));
        assert(has_key(r2, "message"@));
        assert(message_aliases()[0] == "message"@);
        assert(first_present(r2, message_aliases()) == Some("message"@));
        assert(lookup(r2, "message"@) == Some(ValModel::MText(x)));
        assert(remove_key(r2, "message"@) == r2.drop_first());
        assert(r2.drop_first() =~= sorted);
    } else {
        assert(r2 =~= sorted);
        lemma_no_message_alias(r2, sorted);
        lemma_first_present_none(r2, message_aliases());
    }
    assert(rm3.fields =~= sorted);
    assert(rm3 == EventModel {
        timestamp: None,
        level: m.level,
        message: m.message,
        fields: sorted,
    });
}

/// None of the names is a timestamp alias.
proof fn lemma_no_ts_alias(r: FieldsModel, core_fields: FieldsModel, sorted: FieldsModel)
    requires
        r == core_fields + sorted,
        forall|j: int|
            0 <= j < core_fields.len() ==> (#[trigger] core_fields[j]).0 == "level"@
                || core_fields[j].0 == "message"@,
        forall|q: int| 0 <= q < sorted.len() ==> !is_core_alias((#[trigger] sorted[q]).0),
    ensures
        forall|u: int| 0 <= u < ts_aliases().len() ==> !has_key(r, #[trigger] ts_aliases()[u]),
{
    reveal_strlit("level");
    reveal_strlit("message");
    reveal_strlit("timestamp");
    reveal_strlit("ts");
    reveal_strlit("time");
    reveal_strlit("at");
    reveal_strlit("_t");
    reveal_strlit("@t");
    assert forall|u: int| 0 <= u < ts_aliases().len() implies !has_key(
        r,
        #[trigger] ts_aliases()[u],
    ) by {
        let a = ts_aliases()[u];
        assert(a.len() != 5 && a.len() != 7) by {
            if u == 0 {
            } else if u == 1 {
            } else if u == 2 {
            } else if u == 3 {
            } else if u == 4 {
            } else {
                assert(u == 5);
            }
        }
        assert forall|j: int| 0 <= j < r.len() implies (#[trigger] r[j]).0 != a by {
            if j < core_fields.len() {
                assert(r[j] == core_fields[j]);
                assert("level"@.len() == 5 && "message"@.len() == 7);
            } else {
                assert(r[j] == sorted[j - core_fields.len()]);
                assert(!is_core_alias(r[j].0));
                assert(ts_aliases().contains(a)) by {
                    assert(ts_aliases()[u] == a);
                }
            }
        }
        lemma_lookup_absent(r, a);
    }
}

/// None of the names is a level alias.
proof fn lemma_no_level_alias(r: FieldsModel, core_fields: FieldsModel, sorted: FieldsModel)
    requires
        r == core_fields + sorted,
        forall|j: int| 0 <= j < core_fields.len() ==> (#[trigger] core_fields[j]).0 == "message"@,
        forall|q: int| 0 <= q < sorted.len() ==> !is_core_alias((#[trigger] sorted[q]).0),
    ensures
        forall|u: int| 0 <= u < level_aliases().len() ==> !has_key(r, #[trigger] level_aliases()[u]),
{
    reveal_strlit("message");
    reveal_strlit("level");
    reveal_strlit("log_level");
    reveal_strlit("loglevel");
    reveal_strlit("lvl");
    reveal_strlit("severity");
    reveal_strlit("@l");
    assert forall|u: int| 0 <= u < level_aliases().len() implies !has_key(
        r,
        #[trigger] level_aliases()[u],
    ) by {
        let a = level_aliases()[u];
        assert(a.len() != 7) by {
            if u == 0 {
            } else if u == 1 {
            } else if u == 2 {
            } else if u == 3 {
            } else if u == 4 {
            } else {
                assert(u == 5);
            }
        }
        assert forall|j: int| 0 <= j < r.len() implies (#[trigger] r[j]).0 != a by {
            if j < core_fields.len() {
                assert(r[j] == core_fields[j]);
                assert("message"@.len() == 7);
            } else {
                assert(r[j] == sorted[j - core_fields.len()]);
                assert(!is_core_alias(r[j].0));
                assert(level_aliases().contains(a)) by {
                    assert(level_aliases()[u] == a);
                }
            }
        }
        lemma_lookup_absent(r, a);
    }
}

/// None of the names is a message alias.
proof fn lemma_no_message_alias(r: FieldsModel, sorted: FieldsModel)
    requires
        r == sorted,
        forall|q: int| 0 <= q < sorted.len() ==> !is_core_alias((#[trigger] sorted[q]).0),
    ensures
        forall|u: int|
            0 <= u < message_aliases().len() ==> !has_key(r, #[trigger] message_aliases()[u]),
{
    assert forall|u: int| 0 <= u < message_aliases().len() implies !has_key(
        r,
        #[trigger] message_aliases()[u],
    ) by {
        let a = message_aliases()[u];
        assert forall|j: int| 0 <= j < r.len() implies (#[trigger] r[j]).0 != a by {
            assert(!is_core_alias(r[j].0));
            assert(message_aliases().contains(a)) by {
                assert(message_aliases()[u] == a);
            }
        }
        lemma_lookup_absent(r, a);
    }
}

} // verus!
