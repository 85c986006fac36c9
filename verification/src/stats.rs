//! Per-run statistics: counters, the observed timestamp span among emitted
//! events, and the per-level histogram.

use vstd::prelude::*;

use crate::event::{Event, Timestamp};
use crate::formatters::{join_sep, join_with};
use crate::text::{
    lex_le, chars_le, chars_of, chars_eq, dec_digits, dec_chars_u64, append_chars, append_str,
    string_from_chars,
};
use crate::time::{ts_millis_text_of, format_timestamp};

verus! {

/// The model of the level histogram: names and counts, in stored order.
pub open spec fn hist_model(h: Seq<(String, usize)>) -> Seq<(Seq<char>, int)> {
    h.map_values(|p: (String, usize)| (p.0@, p.1 as int))
}

/// One more sighting of a level: bump its count, or insert it with count one
/// at its place in name order.
pub open spec fn bump_level(h: Seq<(Seq<char>, int)>, l: Seq<char>) -> Seq<(Seq<char>, int)>
    decreases h.len(),
{
    if h.len() == 0 {
        seq![(l, 1int)]
    } else if h[0].0 == l {
        seq![(h[0].0, h[0].1 + 1)] + h.drop_first()
    } else if lex_le(l, h[0].0) {
        seq![(l, 1int)] + h
    } else {
        seq![h[0]] + bump_level(h.drop_first(), l)
    }
}

/// Strictly earlier instant.
pub open spec fn ts_lt(a: Timestamp, b: Timestamp) -> bool {
    a.secs < b.secs || (a.secs == b.secs && a.nanos < b.nanos)
}

/// No later instant.
pub open spec fn ts_le(a: Timestamp, b: Timestamp) -> bool {
    a.secs < b.secs || (a.secs == b.secs && a.nanos <= b.nanos)
}

/// Counts of what one run saw, and the timestamp span of what it emitted.
pub struct Stats {
    pub lines_seen: usize,
    pub events_shown: usize,
    pub parse_errors: usize,
    pub filtered_out: usize,
    pub start_time: Option<Timestamp>,
    pub end_time: Option<Timestamp>,
    pub levels_seen: Vec<(String, usize)>,
}

impl Stats {
    /// Each histogram count is covered by the events shown, and the span is
    /// ordered.
    pub open spec fn wf(self) -> bool {
        &&& forall|j: int|
            0 <= j < self.levels_seen@.len() ==> (#[trigger] self.levels_seen@[j]).1
                <= self.events_shown
        &&& match (self.start_time, self.end_time) {
            (Some(s), Some(e)) => ts_le(s, e),
            (None, None) => true,
            _ => false,
        }
    }

    /// All-zero statistics.
    pub fn new() -> (r: Stats)
        ensures
            r.lines_seen == 0,
            r.events_shown == 0,
            r.parse_errors == 0,
            r.filtered_out == 0,
            r.start_time is None,
            r.end_time is None,
            r.levels_seen@.len() == 0,
            r.wf(),
    {
        Stats {
            lines_seen: 0,
            events_shown: 0,
            parse_errors: 0,
            filtered_out: 0,
            start_time: None,
            end_time: None,
            levels_seen: Vec::new(),
        }
    }

    /// Count one emitted event: one more shown, the span widened to its
    /// timestamp, and its level's count bumped.
    pub fn record_event(&mut self, event: &Event)
        requires
            old(self).wf(),
            old(self).events_shown < usize::MAX,
        ensures
            final(self).wf(),
            final(self).events_shown == old(self).events_shown + 1,
            final(self).lines_seen == old(self).lines_seen,
            final(self).parse_errors == old(self).parse_errors,
            final(self).filtered_out == old(self).filtered_out,
            final(self).start_time == (match (old(self).start_time, event.timestamp) {
                (None, t) => t,
                (Some(s), Some(t)) => if ts_lt(t, s) {
                    Some(t)
                } else {
                    Some(s)
                },
                (Some(s), None) => Some(s),
            }),
            final(self).end_time == (match (old(self).end_time, event.timestamp) {
                (None, t) => t,
                (Some(e), Some(t)) => if ts_lt(e, t) {
                    Some(t)
                } else {
                    Some(e)
                },
                (Some(e), None) => Some(e),
            }),
            hist_model(final(self).levels_seen@) == (match event.level {
                Some(l) => bump_level(hist_model(old(self).levels_seen@), l@),
                None => hist_model(old(self).levels_seen@),
            }),
    {
        self.events_shown = self.events_shown + 1;
        match &event.timestamp {
            Some(t) => {
                match self.start_time {
                    None => {
                        self.start_time = Some(*t);
                    },
                    Some(s) => {
                        if t.secs < s.secs || (t.secs == s.secs && t.nanos < s.nanos) {
                            self.start_time = Some(*t);
                        }
                    },
                }
                match self.end_time {
                    None => {
                        self.end_time = Some(*t);
                    },
                    Some(e) => {
                        if e.secs < t.secs || (e.secs == t.secs && e.nanos < t.nanos) {
                            self.end_time = Some(*t);
                        }
                    },
                }
            },
            None => {
            },
        }
        match &event.level {
            Some(l) => {
                let ghost before = hist_model(self.levels_seen@);
                let ghost before_vec = self.levels_seen@;
                proof {
                    assert forall|j: int| 0 <= j < before.len() implies (#[trigger] before[j]).1
                        <= old(self).events_shown as int by {
                        assert(before[j] == (before_vec[j].0@, before_vec[j].1 as int));
                    }
                }
                self.bump(l);
                proof {
                    lemma_bump_counts(before, l@, old(self).events_shown as int);
                    assert forall|j: int|
                        0 <= j < self.levels_seen@.len() implies (#[trigger] self.levels_seen@[j]).1
                        <= self.events_shown by {
                        assert(hist_model(self.levels_seen@)[j] == (
                            self.levels_seen@[j].0@,
                            self.levels_seen@[j].1 as int,
                        ));
                    }
                }
            },
            None => {
            },
        }
    }

    /// Bump one level's count in the sorted histogram.
    fn bump(&mut self, l: &String)
        requires
            forall|j: int|
                0 <= j < old(self).levels_seen@.len() ==> (#[trigger] old(
                    self,
                ).levels_seen@[j]).1 < usize::MAX,
        ensures
            hist_model(final(self).levels_seen@) == bump_level(
                hist_model(old(self).levels_seen@),
                l@,
            ),
            final(self).lines_seen == old(self).lines_seen,
            final(self).events_shown == old(self).events_shown,
            final(self).parse_errors == old(self).parse_errors,
            final(self).filtered_out == old(self).filtered_out,
            final(self).start_time == old(self).start_time,
            final(self).end_time == old(self).end_time,
    {
        let lc = chars_of(l.as_str());
        let w = self.find_bump_pos(&lc);
        let ghost before = hist_model(self.levels_seen@);
        if w < self.levels_seen.len() {
            let same = {
                let kc = chars_of(self.levels_seen[w].0.as_str());
                chars_eq(&kc, &lc)
            };
            if same {
                let c = self.levels_seen[w].1;
                let name = self.levels_seen[w].0.clone();
                self.levels_seen.set(w, (name, c + 1));
                proof {
                    lemma_bump_at_equal(before, l@, w as int);
                    assert(hist_model(self.levels_seen@) =~= before.update(
                        w as int,
                        (l@, before[w as int].1 + 1),
                    ));
                }
                return ;
            }
        }
        self.levels_seen.insert(w, (l.clone(), 1));
        proof {
            lemma_bump_at_insert(before, l@, w as int);
            assert(hist_model(self.levels_seen@) =~= before.subrange(0, w as int) + seq![
                (l@, 1int),
            ] + before.subrange(w as int, before.len() as int));
        }
    }

    /// First index whose name is not strictly below `lc`.
    fn find_bump_pos(&self, lc: &Vec<char>) -> (w: usize)
        ensures
            w <= self.levels_seen@.len(),
            forall|j: int|
                0 <= j < w ==> (#[trigger] hist_model(self.levels_seen@)[j]).0 != lc@ && !lex_le(
                    lc@,
                    hist_model(self.levels_seen@)[j].0,
                ),
            w < self.levels_seen@.len() ==> (hist_model(self.levels_seen@)[w as int].0 == lc@
                || lex_le(lc@, hist_model(self.levels_seen@)[w as int].0)),
    {
        let mut w: usize = 0;
        loop
            invariant
                w <= self.levels_seen@.len(),
                forall|j: int|
                    0 <= j < w ==> (#[trigger] hist_model(self.levels_seen@)[j]).0 != lc@
                        && !lex_le(lc@, hist_model(self.levels_seen@)[j].0),
            decreases self.levels_seen@.len() - w,
        {
            if w >= self.levels_seen.len() {
                return w;
            }
            let kc = chars_of(self.levels_seen[w].0.as_str());
            proof {
                assert(hist_model(self.levels_seen@)[w as int].0 == kc@);
            }
            if chars_eq(&kc, &lc) {
                return w;
            }
            if chars_le(lc, &kc) {
                return w;
            }
            w += 1;
        }
    }
}

/// Bumping raises no count above one more than the old bound.
proof fn lemma_bump_counts(h: Seq<(Seq<char>, int)>, l: Seq<char>, bound: int)
    requires
        0 <= bound,
        forall|j: int| 0 <= j < h.len() ==> (#[trigger] h[j]).1 <= bound,
    ensures
        forall|j: int|
            0 <= j < bump_level(h, l).len() ==> (#[trigger] bump_level(h, l)[j]).1 <= bound + 1,
    decreases h.len(),
{
    if h.len() == 0 {
    } else if h[0].0 == l {
        assert forall|j: int| 0 <= j < bump_level(h, l).len() implies (#[trigger] bump_level(
            h,
            l,
        )[j]).1 <= bound + 1 by {
            if j > 0 {
                assert(bump_level(h, l)[j] == h[j]);
            }
        }
    } else if lex_le(l, h[0].0) {
        assert forall|j: int| 0 <= j < bump_level(h, l).len() implies (#[trigger] bump_level(
            h,
            l,
        )[j]).1 <= bound + 1 by {
            if j > 0 {
                assert(bump_level(h, l)[j] == h[j - 1]);
            }
        }
    } else {
        lemma_bump_counts(h.drop_first(), l, bound);
        assert forall|j: int| 0 <= j < bump_level(h, l).len() implies (#[trigger] bump_level(
            h,
            l,
        )[j]).1 <= bound + 1 by {
            if j > 0 {
                assert(bump_level(h, l)[j] == bump_level(h.drop_first(), l)[j - 1]);
            } else {
                assert(bump_level(h, l)[0] == h[0]);
            }
        }
    }
}

proof fn lemma_bump_at_equal(h: Seq<(Seq<char>, int)>, l: Seq<char>, w: int)
    requires
        0 <= w < h.len(),
        h[w].0 == l,
        forall|j: int| 0 <= j < w ==> (#[trigger] h[j]).0 != l && !lex_le(l, h[j].0),
    ensures
        bump_level(h, l) == h.update(w, (l, h[w].1 + 1)),
    decreases w,
{
    if w == 0 {
        assert(seq![(h[0].0, h[0].1 + 1)] + h.drop_first() =~= h.update(0, (l, h[0].1 + 1)));
    } else {
        lemma_bump_at_equal(h.drop_first(), l, w - 1);
        assert(seq![h[0]] + h.drop_first().update(w - 1, (l, h[w].1 + 1)) =~= h.update(
            w,
            (l, h[w].1 + 1),
        ));
    }
}

proof fn lemma_bump_at_insert(h: Seq<(Seq<char>, int)>, l: Seq<char>, w: int)
    requires
        0 <= w <= h.len(),
        forall|j: int| 0 <= j < w ==> (#[trigger] h[j]).0 != l && !lex_le(l, h[j].0),
        w < h.len() ==> h[w].0 != l && lex_le(l, h[w].0),
    ensures
        bump_level(h, l) == h.subrange(0, w) + seq![(l, 1int)] + h.subrange(w, h.len() as int),
    decreases w,
{
    if w == 0 {
        if h.len() == 0 {
            assert(seq![(l, 1int)] =~= h.subrange(0, 0) + seq![(l, 1int)] + h.subrange(0, 0));
        } else {
            assert(seq![(l, 1int)] + h =~= h.subrange(0, 0) + seq![(l, 1int)] + h.subrange(
                0,
                h.len() as int,
            ));
        }
    } else {
        lemma_bump_at_insert(h.drop_first(), l, w - 1);
        assert(seq![h[0]] + (h.drop_first().subrange(0, w - 1) + seq![(l, 1int)]
            + h.drop_first().subrange(w - 1, h.len() - 1)) =~= h.subrange(0, w) + seq![
            (l, 1int),
        ] + h.subrange(w, h.len() as int));
    }
}

/// `XhYmZs`, `YmZs` or `Zs` for a non-negative span of whole seconds.
pub open spec fn duration_text(secs: int) -> Seq<char> {
    let hours = secs / 3600;
    let minutes = (secs % 3600) / 60;
    let s = secs % 60;
    if hours > 0 {
        dec_digits(hours as nat) + "h"@ + dec_digits(minutes as nat) + "m"@ + dec_digits(
            s as nat,
        ) + "s"@
    } else if minutes > 0 {
        dec_digits(minutes as nat) + "m"@ + dec_digits(s as nat) + "s"@
    } else {
        dec_digits(s as nat) + "s"@
    }
}

/// Render a non-negative span of whole seconds.
pub fn format_duration(seconds: i64) -> (r: String)
    requires
        0 <= seconds,
    ensures
        r@ == duration_text(seconds as int),
{
    let total = seconds as u64;
    let hours = total / 3600;
    let minutes = (total % 3600) / 60;
    let secs = total % 60;
    let mut out: Vec<char> = Vec::new();
    if hours > 0 {
        let h = dec_chars_u64(hours);
        append_chars(&mut out, &h);
        append_str(&mut out, "h");
        let m = dec_chars_u64(minutes);
        append_chars(&mut out, &m);
        append_str(&mut out, "m");
        let s = dec_chars_u64(secs);
        append_chars(&mut out, &s);
        append_str(&mut out, "s");
    } else if minutes > 0 {
        let m = dec_chars_u64(minutes);
        append_chars(&mut out, &m);
        append_str(&mut out, "m");
        let s = dec_chars_u64(secs);
        append_chars(&mut out, &s);
        append_str(&mut out, "s");
    } else {
        let s = dec_chars_u64(secs);
        append_chars(&mut out, &s);
        append_str(&mut out, "s");
    }
    proof {
        assert(out@ =~= duration_text(seconds as int));
    }
    string_from_chars(&out)
}

/// The counter line of the summary.
pub open spec fn counters_line(s: Stats) -> Seq<char> {
    "Events shown: "@ + dec_digits(s.events_shown as nat) + " (parse errors: "@ + dec_digits(
        s.parse_errors as nat,
    ) + ", lines seen: "@ + dec_digits(s.lines_seen as nat) + ", filtered: "@ + dec_digits(
        s.filtered_out as nat,
    ) + ")"@
}

/// The span's whole seconds: the nanosecond difference truncated to
/// seconds, clamped to the representable range.
pub open spec fn span_secs(s: Timestamp, e: Timestamp) -> int {
    let dn = (e.secs - s.secs) * 1_000_000_000 + (e.nanos - s.nanos);
    if dn < 0 {
        0
    } else if dn / 1_000_000_000 > 0x7fff_ffff_ffff_ffff {
        0x7fff_ffff_ffff_ffff
    } else {
        dn / 1_000_000_000
    }
}

/// The time-span line of the summary, present when a span was observed.
pub open spec fn span_line(s: Timestamp, e: Timestamp) -> Seq<char> {
    "Time span: "@ + ts_millis_text_of(s.secs as int, s.nanos as int) + " to "@
        + ts_millis_text_of(e.secs as int, e.nanos as int) + " (duration: "@ + duration_text(
        span_secs(s, e),
    ) + ")"@
}

/// One `NAME(count)` piece per level.
pub open spec fn level_parts(h: Seq<(Seq<char>, int)>) -> Seq<Seq<char>> {
    h.map_values(|p: (Seq<char>, int)| p.0 + "("@ + dec_digits(p.1 as nat) + ")"@)
}

/// The level line of the summary, present when any level was counted.
pub open spec fn levels_line(h: Seq<(Seq<char>, int)>) -> Seq<char> {
    "Log levels: "@ + join_sep(level_parts(h), ", "@)
}

/// The whole summary.
pub open spec fn summary_model(s: Stats) -> Seq<Seq<char>> {
    let l0 = seq![counters_line(s)];
    let l1 = match (s.start_time, s.end_time) {
        (Some(a), Some(b)) => l0.push(span_line(a, b)),
        _ => l0,
    };
    if hist_model(s.levels_seen@).len() > 0 {
        l1.push(levels_line(hist_model(s.levels_seen@)))
    } else {
        l1
    }
}

impl Stats {
    /// The summary lines: the counters; the observed time span, when any;
    /// the level counts, when any.
    pub fn summary_lines(&self) -> (r: Vec<String>)
        requires
            self.wf(),
        ensures
            r@.map_values(|s: String| s@) == summary_model(*self),
    {
        let mut lines: Vec<String> = Vec::new();
        let mut l0: Vec<char> = Vec::new();
        append_str(&mut l0, "Events shown: ");
        let d0 = dec_chars_u64(self.events_shown as u64);
        append_chars(&mut l0, &d0);
        append_str(&mut l0, " (parse errors: ");
        let d1 = dec_chars_u64(self.parse_errors as u64);
        append_chars(&mut l0, &d1);
        append_str(&mut l0, ", lines seen: ");
        let d2 = dec_chars_u64(self.lines_seen as u64);
        append_chars(&mut l0, &d2);
        append_str(&mut l0, ", filtered: ");
        let d3 = dec_chars_u64(self.filtered_out as u64);
        append_chars(&mut l0, &d3);
        append_str(&mut l0, ")");
        proof {
            assert(l0@ =~= counters_line(*self));
        }
        lines.push(string_from_chars(&l0));
        match (&self.start_time, &self.end_time) {
            (Some(a), Some(b)) => {
                let mut l1: Vec<char> = Vec::new();
                append_str(&mut l1, "Time span: ");
                let at = format_timestamp(a.secs, a.nanos);
                append_str(&mut l1, at.as_str());
                append_str(&mut l1, " to ");
                let bt = format_timestamp(b.secs, b.nanos);
                append_str(&mut l1, bt.as_str());
                append_str(&mut l1, " (duration: ");
                let dn: i128 = (b.secs as i128 - a.secs as i128) * 1_000_000_000 + (
                b.nanos as i128 - a.nanos as i128);
                let secs: i64 = if dn < 0 {
                    0
                } else if dn / 1_000_000_000 > 0x7fff_ffff_ffff_ffff {
                    i64::MAX
                } else {
                    (dn / 1_000_000_000) as i64
                };
                assert(secs as int == span_secs(*a, *b));
                let dur = format_duration(secs);
                append_str(&mut l1, dur.as_str());
                append_str(&mut l1, ")");
                proof {
                    assert(l1@ =~= span_line(*a, *b));
                }
                lines.push(string_from_chars(&l1));
            },
            _ => {
            },
        }
        let ghost hist = hist_model(self.levels_seen@);
        if self.levels_seen.len() > 0 {
            let mut parts: Vec<Vec<char>> = Vec::new();
            let mut i: usize = 0;
            proof {
                assert(parts@.map_values(|v: Vec<char>| v@) =~= level_parts(hist.take(0)));
            }
            while i < self.levels_seen.len()
                invariant
                    i <= self.levels_seen@.len(),
                    hist == hist_model(self.levels_seen@),
                    parts@.map_values(|v: Vec<char>| v@) == level_parts(hist.take(i as int)),
                decreases self.levels_seen@.len() - i,
            {
                let p = &self.levels_seen[i];
                let mut part: Vec<char> = Vec::new();
                let nc = chars_of(p.0.as_str());
                append_chars(&mut part, &nc);
                append_str(&mut part, "(");
                let dc = dec_chars_u64(p.1 as u64);
                append_chars(&mut part, &dc);
                append_str(&mut part, ")");
                let ghost parts_before = parts@.map_values(|v: Vec<char>| v@);
                parts.push(part);
                proof {
                    assert(part@ =~= level_parts(hist)[i as int]);
                    assert(parts@.map_values(|v: Vec<char>| v@) =~~= parts_before.push(
                        level_parts(hist)[i as int],
                    ));
                    assert(level_parts(hist.take(i as int)).push(level_parts(hist)[i as int])
                        =~~= level_parts(hist.take(i as int + 1)));
                }
                i += 1;
            }
            proof {
                assert(hist.take(hist.len() as int) =~= hist);
            }
            let joined = join_with(&parts, ", ");
            let mut l2: Vec<char> = Vec::new();
            append_str(&mut l2, "Log levels: ");
            append_chars(&mut l2, &joined);
            proof {
                assert(l2@ =~= levels_line(hist));
            }
            lines.push(string_from_chars(&l2));
        }
        proof {
            assert(lines@.map_values(|s: String| s@) =~~= summary_model(*self));
        }
        lines
    }
}

} // verus!
