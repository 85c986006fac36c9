//! The syslog-style grammar: an optional `<priority>` prefix, a fixed
//! `Mon DD HH:MM:SS` timestamp, a hostname token, a process name with an
//! optional `[pid]`, a colon, then the free-text message. An unparseable
//! line degrades to a message-only event.

use vstd::prelude::*;

use crate::event::{Event, EventModel, FieldsModel, upsert, extract_model};
use crate::text::{
    chars_of, is_space, is_space_char, is_digit, is_digit_char, digits_val, digit_run_end,
    space_run_end, nonspace_run_end, string_from_chars, subvec, scan_digit_run, scan_space_run,
    scan_nonspace_run, parse_u32_digits, lemma_digit_run_chars,
};
use crate::value::{FieldValue, NumValue, ValModel, coerce_model, parse_field_value};

verus! {

/// An ASCII letter, digit or underscore: what the month token of the
/// timestamp is made of. The class is deliberately ASCII — the full Unicode
/// word-character class is a table property that no short specification can
/// state — and ASCII covers every RFC 3164 month abbreviation.
pub open spec fn is_word_char(c: char) -> bool {
    let u = c as u32;
    (65 <= u && u <= 90) || (97 <= u && u <= 122) || (48 <= u && u <= 57) || u == 95
}

fn is_word_char_char(c: char) -> (r: bool)
    ensures
        r == is_word_char(c),
{
    let u = c as u32;
    (65 <= u && u <= 90) || (97 <= u && u <= 122) || (48 <= u && u <= 57) || u == 95
}

/// End of the run of characters that are neither `:` nor `[`.
pub open spec fn procname_run_end(s: Seq<char>, p: int) -> int
    decreases s.len() - p when p <= s.len()
{
    if p < s.len() && s[p] != ':' && s[p] != '[' {
        procname_run_end(s, p + 1)
    } else {
        p
    }
}

fn scan_procname_run(v: &Vec<char>, p: usize) -> (r: usize)
    requires
        p <= v@.len(),
    ensures
        r == procname_run_end(v@, p as int),
        p <= r <= v@.len(),
{
    let mut q = p;
    while q < v.len() && v[q] != ':' && v[q] != '['
        invariant
            p <= q <= v@.len(),
            procname_run_end(v@, p as int) == procname_run_end(v@, q as int),
        decreases v@.len() - q,
    {
        q += 1;
    }
    q
}

/// The parsed components of a line that matches the grammar.
pub struct SyslogParts {
    pub pri: Option<Seq<char>>,
    pub ts: Seq<char>,
    pub host: Seq<char>,
    pub process: Seq<char>,
    pub pid: Option<Seq<char>>,
    pub msg: Seq<char>,
}

/// Where each component stands in the line.
pub struct SyslogSpans {
    pub pri: Option<(usize, usize)>,
    pub ts: (usize, usize),
    pub host: (usize, usize),
    pub process: (usize, usize),
    pub pid: Option<(usize, usize)>,
    pub msg_start: usize,
}

pub open spec fn spans_to_parts(s: Seq<char>, sp: SyslogSpans) -> SyslogParts {
    SyslogParts {
        pri: match sp.pri {
            Some(ab) => Some(s.subrange(ab.0 as int, ab.1 as int)),
            None => None,
        },
        ts: s.subrange(sp.ts.0 as int, sp.ts.1 as int),
        host: s.subrange(sp.host.0 as int, sp.host.1 as int),
        process: s.subrange(sp.process.0 as int, sp.process.1 as int),
        pid: match sp.pid {
            Some(ab) => Some(s.subrange(ab.0 as int, ab.1 as int)),
            None => None,
        },
        msg: s.subrange(sp.msg_start as int, s.len() as int),
    }
}

/// Whether and how a line matches the grammar. The priority prefix is taken
/// when well-formed; the timestamp is three word characters, spaces, one or
/// two digits, spaces, and a `HH:MM:SS` group; then spaces, a hostname, and
/// spaces; then the process name, an optional bracketed pid, a colon, and
/// the message after any spaces.
pub open spec fn syslog_match(s: Seq<char>) -> Option<SyslogParts> {
    let pri_de = digit_run_end(s, 1);
    let has_pri = s.len() > 0 && s[0] == '<' && pri_de > 1 && pri_de < s.len() && s[pri_de] == '>';
    let pri = if has_pri {
        Some(s.subrange(1, pri_de))
    } else {
        None
    };
    let pos = if has_pri {
        pri_de + 1
    } else {
        0
    };
    if pos + 3 <= s.len() && is_word_char(s[pos]) && is_word_char(s[pos + 1]) && is_word_char(
        s[pos + 2],
    ) {
        let w1 = space_run_end(s, pos + 3);
        let de = digit_run_end(s, w1);
        if w1 > pos + 3 && (de - w1 == 1 || de - w1 == 2) && de < s.len() && is_space(s[de]) {
            let t = space_run_end(s, de);
            if t + 8 <= s.len() && is_digit(s[t]) && is_digit(s[t + 1]) && s[t + 2] == ':'
                && is_digit(s[t + 3]) && is_digit(s[t + 4]) && s[t + 5] == ':' && is_digit(
                s[t + 6],
            ) && is_digit(s[t + 7]) {
                let ts = s.subrange(pos, t + 8);
                let w3 = space_run_end(s, t + 8);
                let he = nonspace_run_end(s, w3);
                if w3 > t + 8 && he > w3 {
                    let w4 = space_run_end(s, he);
                    let pe = procname_run_end(s, w4);
                    if w4 > he && pe > w4 {
                        let host = s.subrange(w3, he);
                        let process = s.subrange(w4, pe);
                        if pe < s.len() && s[pe] == '[' {
                            let pde = digit_run_end(s, pe + 1);
                            if pde > pe + 1 && pde < s.len() && s[pde] == ']' {
                                let c = space_run_end(s, pde + 1);
                                if c < s.len() && s[c] == ':' {
                                    let m = space_run_end(s, c + 1);
                                    Some(
                                        SyslogParts {
                                            pri,
                                            ts,
                                            host,
                                            process,
                                            pid: Some(s.subrange(pe + 1, pde)),
                                            msg: s.subrange(m, s.len() as int),
                                        },
                                    )
                                } else {
                                    None
                                }
                            } else {
                                None
                            }
                        } else if pe < s.len() && s[pe] == ':' {
                            let m = space_run_end(s, pe + 1);
                            Some(
                                SyslogParts {
                                    pri,
                                    ts,
                                    host,
                                    process,
                                    pid: None,
                                    msg: s.subrange(m, s.len() as int),
                                },
                            )
                        } else {
                            None
                        }
                    } else {
                        None
                    }
                } else {
                    None
                }
            } else {
                None
            }
        } else {
            None
        }
    } else {
        None
    }
}

/// The level name for a syslog severity value.
pub open spec fn severity_name(sev: int) -> Seq<char> {
    if sev == 0 {
        "EMERGENCY"@
    } else if sev == 1 {
        "ALERT"@
    } else if sev == 2 {
        "CRITICAL"@
    } else if sev == 3 {
        "ERROR"@
    } else if sev == 4 {
        "WARNING"@
    } else if sev == 5 {
        "NOTICE"@
    } else if sev == 6 {
        "INFO"@
    } else {
        "DEBUG"@
    }
}

/// The field map and level of a matched line: the decoded priority triple
/// when the priority digits fit an unsigned 32-bit value, then timestamp,
/// hostname, process, the pid when present, and the message.
pub open spec fn syslog_fields(parts: SyslogParts) -> (FieldsModel, Option<Seq<char>>) {
    let base = Seq::<(Seq<char>, ValModel)>::empty();
    let with_pri = match parts.pri {
        Some(d) => {
            if digits_val(d) <= 0xffff_ffff {
                let pv = digits_val(d) as int;
                (
                    upsert(
                        upsert(
                            upsert(base, "priority"@, ValModel::MInt(pv)),
                            "facility"@,
                            ValModel::MInt(pv / 8),
                        ),
                        "severity"@,
                        ValModel::MInt(pv % 8),
                    ),
                    Some(severity_name(pv % 8)),
                )
            } else {
                (base, None::<Seq<char>>)
            }
        },
        None => (base, None::<Seq<char>>),
    };
    let f2 = upsert(
        upsert(
            upsert(with_pri.0, "timestamp"@, ValModel::MText(parts.ts)),
            "hostname"@,
            ValModel::MText(parts.host),
        ),
        "process"@,
        ValModel::MText(parts.process),
    );
    let f3 = match parts.pid {
        Some(d) => upsert(f2, "pid"@, coerce_model(d)),
        None => f2,
    };
    (upsert(f3, "message"@, ValModel::MText(parts.msg)), with_pri.1)
}

/// What syslog parsing yields for a line: the decoded components as fields
/// and core slots on a match, the whole line as the message otherwise; core
/// fields classified either way.
pub open spec fn syslog_model(s: Seq<char>) -> EventModel {
    match syslog_match(s) {
        Some(parts) => {
            let fl = syslog_fields(parts);
            extract_model(
                EventModel {
                    timestamp: None,
                    level: fl.1,
                    message: Some(parts.msg),
                    fields: fl.0,
                },
            )
        },
        None => extract_model(
            EventModel {
                timestamp: None,
                level: None,
                message: Some(s),
                fields: upsert(Seq::empty(), "message"@, ValModel::MText(s)),
            },
        ),
    }
}

/// Scan one line against the grammar, yielding the component spans.
fn syslog_scan(v: &Vec<char>) -> (r: Option<SyslogSpans>)
    ensures
        match r {
            Some(sp) => {
                &&& syslog_match(v@) == Some(spans_to_parts(v@, sp))
                &&& sp.msg_start <= v@.len()
                &&& sp.ts.0 <= sp.ts.1 <= v@.len()
                &&& sp.host.0 <= sp.host.1 <= v@.len()
                &&& sp.process.0 <= sp.process.1 <= v@.len()
                &&& (match sp.pri {
                    Some(ab) => ab.0 <= ab.1 <= v@.len() && crate::text::is_digits(
                        v@.subrange(ab.0 as int, ab.1 as int),
                    ),
                    None => true,
                })
                &&& (match sp.pid {
                    Some(ab) => ab.0 <= ab.1 <= v@.len(),
                    None => true,
                })
            },
            None => syslog_match(v@) is None,
        },
{
    let n = v.len();
    let mut pri: Option<(usize, usize)> = None;
    let mut pos: usize = 0;
    if n > 0 && v[0] == '<' {
        let de = scan_digit_run(v, 1);
        if de > 1 && de < n && v[de] == '>' {
            proof {
                lemma_digit_run_chars(v@, 1);
            }
            pri = Some((1, de));
            pos = de + 1;
        }
    }
    if !(n >= 3 && pos <= n - 3 && is_word_char_char(v[pos]) && is_word_char_char(v[pos + 1])
        && is_word_char_char(v[pos + 2])) {
        return None;
    }
    let w1 = scan_space_run(v, pos + 3);
    let de = scan_digit_run(v, w1);
    if !(w1 > pos + 3 && (de - w1 == 1 || de - w1 == 2) && de < n && is_space_char(v[de])) {
        return None;
    }
    let t = scan_space_run(v, de);
    if !(n >= 8 && t <= n - 8 && is_digit_char(v[t]) && is_digit_char(v[t + 1]) && v[t + 2] == ':'
        && is_digit_char(v[t + 3]) && is_digit_char(v[t + 4]) && v[t + 5] == ':'
        && is_digit_char(v[t + 6]) && is_digit_char(v[t + 7])) {
        return None;
    }
    let w3 = scan_space_run(v, t + 8);
    let he = scan_nonspace_run(v, w3);
    if !(w3 > t + 8 && he > w3) {
        return None;
    }
    let w4 = scan_space_run(v, he);
    let pe = scan_procname_run(v, w4);
    if !(w4 > he && pe > w4) {
        return None;
    }
    if pe < n && v[pe] == '[' {
        let pde = scan_digit_run(v, pe + 1);
        if !(pde > pe + 1 && pde < n && v[pde] == ']') {
            return None;
        }
        let c = scan_space_run(v, pde + 1);
        if !(c < n && v[c] == ':') {
            return None;
        }
        let m = scan_space_run(v, c + 1);
        Some(
            SyslogSpans {
                pri,
                ts: (pos, t + 8),
                host: (w3, he),
                process: (w4, pe),
                pid: Some((pe + 1, pde)),
                msg_start: m,
            },
        )
    } else if pe < n && v[pe] == ':' {
        let m = scan_space_run(v, pe + 1);
        Some(
            SyslogSpans {
                pri,
                ts: (pos, t + 8),
                host: (w3, he),
                process: (w4, pe),
                pid: None,
                msg_start: m,
            },
        )
    } else {
        None
    }
}

/// Parse one syslog-style line into an event. Never fails: a line that does
/// not match the grammar yields a message-only event.
pub fn parse_syslog(line: &str) -> (r: Event)
    ensures
        r.model() == syslog_model(line@),
        r.wf(),
{
    let cs = chars_of(line);
    let mut event = Event::new();
    match syslog_scan(&cs) {
        Some(sp) => {
            match sp.pri {
                Some((a, b)) => {
                    match parse_u32_digits(&cs, a, b) {
                        Some(pv) => {
                            let facility: u32 = pv / 8;
                            let severity: u32 = pv % 8;
                            event.set_field(
                                "priority".to_owned(),
                                FieldValue::Number(NumValue::Int(pv as i64)),
                            );
                            event.set_field(
                                "facility".to_owned(),
                                FieldValue::Number(NumValue::Int(facility as i64)),
                            );
                            event.set_field(
                                "severity".to_owned(),
                                FieldValue::Number(NumValue::Int(severity as i64)),
                            );
                            event.level = Some(severity_string(severity));
                        },
                        None => {
                        },
                    }
                },
                None => {
                },
            }
            event.set_field(
                "timestamp".to_owned(),
                FieldValue::Text(string_from_chars(&subvec(&cs, sp.ts.0, sp.ts.1))),
            );
            event.set_field(
                "hostname".to_owned(),
                FieldValue::Text(string_from_chars(&subvec(&cs, sp.host.0, sp.host.1))),
            );
            event.set_field(
                "process".to_owned(),
                FieldValue::Text(string_from_chars(&subvec(&cs, sp.process.0, sp.process.1))),
            );
            match sp.pid {
                Some((a, b)) => {
                    let pid_text = string_from_chars(&subvec(&cs, a, b));
                    let fv = parse_field_value(pid_text.as_str());
                    event.set_field("pid".to_owned(), fv);
                },
                None => {
                },
            }
            let msg = string_from_chars(&subvec(&cs, sp.msg_start, cs.len()));
            event.message = Some(msg.clone());
            event.set_field("message".to_owned(), FieldValue::Text(msg));
        },
        None => {
            let whole = line.to_owned();
            event.message = Some(whole.clone());
            event.set_field("message".to_owned(), FieldValue::Text(whole));
        },
    }
    event.extract_core_fields();
    event
}

/// The level name for a syslog severity value.
pub fn severity_string(sev: u32) -> (r: String)
    ensures
        r@ == severity_name(sev as int),
{
    if sev == 0 {
        "EMERGENCY".to_owned()
    } else if sev == 1 {
        "ALERT".to_owned()
    } else if sev == 2 {
        "CRITICAL".to_owned()
    } else if sev == 3 {
        "ERROR".to_owned()
    } else if sev == 4 {
        "WARNING".to_owned()
    } else if sev == 5 {
        "NOTICE".to_owned()
    } else if sev == 6 {
        "INFO".to_owned()
    } else {
        "DEBUG".to_owned()
    }
}

} // verus!
