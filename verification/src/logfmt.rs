//! The logfmt grammar: a scan for `key=value` tokens, values either
//! double-quoted spans or maximal runs of non-whitespace, with stray text
//! between tokens dropped. The scan never fails.

use vstd::prelude::*;

use crate::event::{Event, EventModel, FieldsModel, upsert, extract_model};
use crate::text::{chars_of, is_space, string_from_chars, subvec, nonspace_run_end,
    lemma_nonspace_run_end_bounds, scan_nonspace_run};
use crate::value::{coerce_model, parse_field_value};

verus! {

/// First character of a key: an ASCII letter or underscore.
pub open spec fn is_key_start(c: char) -> bool {
    let u = c as u32;
    (65 <= u && u <= 90) || (97 <= u && u <= 122) || u == 95
}

/// Continuation of a key: an ASCII letter, digit, underscore or hyphen.
pub open spec fn is_key_char(c: char) -> bool {
    let u = c as u32;
    (65 <= u && u <= 90) || (97 <= u && u <= 122) || (48 <= u && u <= 57) || u == 95 || u == 45
}

/// End of the run of key characters starting at `p`.
pub open spec fn key_run_end(s: Seq<char>, p: int) -> int
    decreases s.len() - p when p <= s.len()
{
    if p < s.len() && is_key_char(s[p]) {
        key_run_end(s, p + 1)
    } else {
        p
    }
}

/// Index of the next double quote at or after `p`, if any.
pub open spec fn find_quote(s: Seq<char>, p: int) -> Option<int>
    decreases s.len() - p when p <= s.len()
{
    if p >= s.len() {
        None
    } else if s[p] == '"' {
        Some(p)
    } else {
        find_quote(s, p + 1)
    }
}

pub proof fn lemma_key_run_end_bounds(s: Seq<char>, p: int)
    requires
        0 <= p <= s.len(),
    ensures
        p <= key_run_end(s, p) <= s.len(),
    decreases s.len() - p,
{
    if p < s.len() && is_key_char(s[p]) {
        lemma_key_run_end_bounds(s, p + 1);
    }
}

pub proof fn lemma_find_quote_bounds(s: Seq<char>, p: int)
    requires
        0 <= p <= s.len(),
        find_quote(s, p) is Some,
    ensures
        p <= find_quote(s, p).unwrap() < s.len(),
    decreases s.len() - p,
{
    if p < s.len() && s[p] != '"' {
        lemma_find_quote_bounds(s, p + 1);
    }
}

/// The bare-value alternative: a non-empty maximal run of non-whitespace.
pub open spec fn bare_match(s: Seq<char>, p: int, ke: int, vs: int) -> Option<
    (Seq<char>, Seq<char>, int),
> {
    let be = nonspace_run_end(s, vs);
    if be > vs {
        Some((s.subrange(p, ke), s.subrange(vs, be), be))
    } else {
        None
    }
}

/// The `key=value` token starting exactly at `p`, if any: the key, the raw
/// value span (without quotes when quoted), and the scan position after the
/// token. A quoted value is preferred; without a closing quote the opening
/// quote starts a bare value.
pub open spec fn try_match(s: Seq<char>, p: int) -> Option<(Seq<char>, Seq<char>, int)> {
    if p < s.len() && is_key_start(s[p]) {
        let ke = key_run_end(s, p + 1);
        if ke < s.len() && s[ke] == '=' {
            let vs = ke + 1;
            if vs < s.len() && s[vs] == '"' {
                match find_quote(s, vs + 1) {
                    Some(q) => Some((s.subrange(p, ke), s.subrange(vs + 1, q), q + 1)),
                    None => bare_match(s, p, ke, vs),
                }
            } else {
                bare_match(s, p, ke, vs)
            }
        } else {
            None
        }
    } else {
        None
    }
}

pub proof fn lemma_try_match_bounds(s: Seq<char>, p: int)
    requires
        0 <= p,
        try_match(s, p) is Some,
    ensures
        p < try_match(s, p).unwrap().2 <= s.len(),
{
    let ke = key_run_end(s, p + 1);
    lemma_key_run_end_bounds(s, p + 1);
    let vs = ke + 1;
    if vs < s.len() && s[vs] == '"' && find_quote(s, vs + 1) is Some {
        lemma_find_quote_bounds(s, vs + 1);
    } else {
        lemma_nonspace_run_end_bounds(s, vs);
    }
}

/// All `key=value` tokens of the line from position `p` on, left to right,
/// the earliest match first; text that starts no token is skipped.
pub open spec fn scan_pairs(s: Seq<char>, p: int) -> Seq<(Seq<char>, Seq<char>)>
    decreases s.len() - p when 0 <= p via scan_pairs_dec
{
    if p >= s.len() {
        Seq::empty()
    } else {
        match try_match(s, p) {
            Some(m) => seq![(m.0, m.1)] + scan_pairs(s, m.2),
            None => scan_pairs(s, p + 1),
        }
    }
}

#[via_fn]
proof fn scan_pairs_dec(s: Seq<char>, p: int) {
    if p < s.len() {
        if try_match(s, p) is Some {
            lemma_try_match_bounds(s, p);
        }
    }
}

/// The field map that a pair list builds, first pair first, later values
/// under the same key replacing earlier ones in place.
pub open spec fn fields_of_pairs(pairs: Seq<(Seq<char>, Seq<char>)>) -> FieldsModel
    decreases pairs.len(),
{
    if pairs.len() == 0 {
        Seq::empty()
    } else {
        upsert(
            fields_of_pairs(pairs.drop_last()),
            pairs.last().0,
            coerce_model(pairs.last().1),
        )
    }
}

/// What logfmt parsing yields for a line: each scanned token coerced into
/// the field map, then core fields classified.
pub open spec fn logfmt_model(s: Seq<char>) -> EventModel {
    extract_model(
        EventModel {
            timestamp: None,
            level: None,
            message: None,
            fields: fields_of_pairs(scan_pairs(s, 0)),
        },
    )
}

// ---------- executable scanner ----------

fn is_key_start_char(c: char) -> (r: bool)
    ensures
        r == is_key_start(c),
{
    let u = c as u32;
    (65 <= u && u <= 90) || (97 <= u && u <= 122) || u == 95
}

fn is_key_char_char(c: char) -> (r: bool)
    ensures
        r == is_key_char(c),
{
    let u = c as u32;
    (65 <= u && u <= 90) || (97 <= u && u <= 122) || (48 <= u && u <= 57) || u == 95 || u == 45
}

fn scan_key_run(v: &Vec<char>, p: usize) -> (r: usize)
    requires
        p <= v@.len(),
    ensures
        r == key_run_end(v@, p as int),
        p <= r <= v@.len(),
{
    let mut q = p;
    while q < v.len() && is_key_char_char(v[q])
        invariant
            p <= q <= v@.len(),
            key_run_end(v@, p as int) == key_run_end(v@, q as int),
        decreases v@.len() - q,
    {
        q += 1;
    }
    q
}

fn scan_find_quote(v: &Vec<char>, p: usize) -> (r: Option<usize>)
    requires
        p <= v@.len(),
    ensures
        match r {
            Some(q) => find_quote(v@, p as int) == Some(q as int) && p <= q < v@.len(),
            None => find_quote(v@, p as int) is None,
        },
{
    let mut q = p;
    while q < v.len()
        invariant
            p <= q <= v@.len(),
            find_quote(v@, p as int) == find_quote(v@, q as int),
        decreases v@.len() - q,
    {
        if v[q] == '"' {
            return Some(q);
        }
        q += 1;
    }
    None
}

/// Parse one logfmt line into an event. Never fails: a line with no tokens
/// yields an event with no fields.
pub fn parse_logfmt(line: &str) -> (r: Event)
    ensures
        r.model() == logfmt_model(line@),
        r.wf(),
{
    let cs = chars_of(line);
    let mut event = Event::new();
    let ghost mut done: Seq<(Seq<char>, Seq<char>)> = Seq::empty();
    let mut p: usize = 0;
    proof {
        assert(fields_of_pairs(done) =~= Seq::<(Seq<char>, crate::value::ValModel)>::empty());
        assert(done + scan_pairs(cs@, 0) =~= scan_pairs(cs@, 0));
    }
    while p < cs.len()
        invariant
            p <= cs@.len(),
            cs@ == line@,
            event.wf(),
            event.timestamp is None,
            event.level is None,
            event.message is None,
            event.model().fields == fields_of_pairs(done),
            scan_pairs(cs@, 0) == done + scan_pairs(cs@, p as int),
        decreases cs@.len() - p,
    {
        let ghost s = cs@;
        if !is_key_start_char(cs[p]) {
            proof {
                assert(scan_pairs(s, p as int) == scan_pairs(s, p as int + 1));
            }
            p += 1;
            continue ;
        }
        let ke = scan_key_run(&cs, p + 1);
        if ke >= cs.len() || cs[ke] != '=' {
            proof {
                assert(try_match(s, p as int) is None);
                assert(scan_pairs(s, p as int) == scan_pairs(s, p as int + 1));
            }
            p += 1;
            continue ;
        }
        let vs = ke + 1;
        let va: usize;
        let vb: usize;
        let end: usize;
        if vs < cs.len() && cs[vs] == '"' {
            match scan_find_quote(&cs, vs + 1) {
                Some(q) => {
                    va = vs + 1;
                    vb = q;
                    end = q + 1;
                },
                None => {
                    let be = scan_nonspace_run(&cs, vs);
                    if be == vs {
                        proof {
                            assert(try_match(s, p as int) is None);
                            assert(scan_pairs(s, p as int) == scan_pairs(s, p as int + 1));
                        }
                        p += 1;
                        continue ;
                    }
                    va = vs;
                    vb = be;
                    end = be;
                },
            }
        } else {
            let be = scan_nonspace_run(&cs, vs);
            if be == vs {
                proof {
                    assert(try_match(s, p as int) is None);
                    assert(scan_pairs(s, p as int) == scan_pairs(s, p as int + 1));
                }
                p += 1;
                continue ;
            }
            va = vs;
            vb = be;
            end = be;
        }
        proof {
            assert(try_match(s, p as int) == Some(
                (s.subrange(p as int, ke as int), s.subrange(va as int, vb as int), end as int),
            ));
        }
        let key = string_from_chars(&subvec(&cs, p, ke));
        let vtext = string_from_chars(&subvec(&cs, va, vb));
        let fv = parse_field_value(vtext.as_str());
        let ghost fields_before = event.model().fields;
        event.set_field(key, fv);
        proof {
            let pair = (s.subrange(p as int, ke as int), s.subrange(va as int, vb as int));
            assert(done.push(pair).drop_last() =~= done);
            assert(fields_of_pairs(done.push(pair)) == upsert(
                fields_of_pairs(done),
                pair.0,
                coerce_model(pair.1),
            ));
            assert(done + (seq![pair] + scan_pairs(s, end as int)) =~= done.push(pair)
                + scan_pairs(s, end as int));
            done = done.push(pair);
        }
        p = end;
    }
    proof {
        assert(scan_pairs(cs@, p as int) =~= Seq::<(Seq<char>, Seq<char>)>::empty());
        assert(done + scan_pairs(cs@, p as int) =~= done);
    }
    event.extract_core_fields();
    event
}

} // verus!
