//! The per-line pipeline: parse by the configured input format, filter by
//! level, project onto the requested keys, record statistics, and format by
//! the configured output format.

use vstd::prelude::*;

use crate::event::{Event, EventModel, project_model, contains_str};
use crate::formatters::{
    DefaultFormatter, JsonlFormatter, format_default, format_jsonl, logfmt_output, json_output,
};
use crate::jsonl::{ParseError, json_line_fields, jsonl_model, parse_jsonl};
use crate::logfmt::{logfmt_model, parse_logfmt};
use crate::parsers::{LogfmtParser, JsonlParser, SyslogParser};
use crate::stats::Stats;
use crate::syslog::{syslog_model, parse_syslog};
use crate::text::{chars_of, is_space, is_space_char};

verus! {

/// The wire format of the input lines.
pub enum InputFormat {
    Logfmt,
    Jsonl,
    Syslog,
}

/// The wire format of the output lines.
pub enum OutputFormat {
    Default,
    Jsonl,
}

/// The run's configuration, as the command line gives it.
pub struct Cli {
    pub files: Vec<String>,
    pub input_format: InputFormat,
    pub output_format: OutputFormat,
    pub keys: Vec<String>,
    pub levels: Vec<String>,
    pub stats_only: bool,
    pub stats: bool,
    pub debug: bool,
    pub common: bool,
}

/// The upper-case form of a text. Depends on the characters alone.
pub uninterp spec fn upper_of(s: Seq<char>) -> Seq<char>;

/// Relies on `str::to_uppercase`: the Unicode upper-case mapping is a
/// function of the characters alone, independent of any locale.
#[verifier::external_body]
pub fn to_upper(s: &str) -> (r: String)
    ensures
        r@ == upper_of(s@),
{
    s.to_uppercase()
}

/// One of the three parsers, picked by input format.
pub enum AnyParser {
    Logfmt(LogfmtParser),
    Jsonl(JsonlParser),
    Syslog(SyslogParser),
}

/// One of the two formatters, picked by output format.
pub enum AnyFormatter {
    Default(DefaultFormatter),
    Jsonl(JsonlFormatter),
}

/// The parser for an input format.
pub fn create_parser(format: &InputFormat) -> (r: AnyParser)
    ensures
        r is Logfmt <==> format is Logfmt,
        r is Jsonl <==> format is Jsonl,
        r is Syslog <==> format is Syslog,
{
    match format {
        InputFormat::Logfmt => AnyParser::Logfmt(LogfmtParser::new()),
        InputFormat::Jsonl => AnyParser::Jsonl(JsonlParser::new()),
        InputFormat::Syslog => AnyParser::Syslog(SyslogParser::new()),
    }
}

/// The formatter for an output format.
pub fn create_formatter(format: &OutputFormat) -> (r: AnyFormatter)
    ensures
        r is Default <==> format is Default,
        r is Jsonl <==> format is Jsonl,
{
    match format {
        OutputFormat::Default => AnyFormatter::Default(DefaultFormatter::new()),
        OutputFormat::Jsonl => AnyFormatter::Jsonl(JsonlFormatter::new()),
    }
}

/// What parsing one line yields, by format: logfmt and syslog always yield
/// an event model; JSON-Lines yields one or fails, `true` meaning invalid
/// JSON and `false` a non-object root.
pub open spec fn parse_result_model(p: AnyParser, s: Seq<char>) -> Result<EventModel, bool> {
    match p {
        AnyParser::Logfmt(_) => Ok(logfmt_model(s)),
        AnyParser::Syslog(_) => Ok(syslog_model(s)),
        AnyParser::Jsonl(_) => match json_line_fields(s) {
            Ok(fields) => Ok(jsonl_model(fields)),
            Err(b) => Err(b),
        },
    }
}

impl AnyParser {
    /// Parse one line with the picked parser.
    pub fn parse_line(&self, line: &str) -> (r: Result<Event, ParseError>)
        ensures
            r is Ok <==> parse_result_model(*self, line@) is Ok,
            r is Ok ==> r->Ok_0.model() == parse_result_model(*self, line@)->Ok_0 && r->Ok_0.wf(),
            r is Err ==> (r->Err_0 is JsonError <==> parse_result_model(*self, line@) == Err::<
                EventModel,
                bool,
            >(true)),
    {
        match self {
            AnyParser::Logfmt(_) => Ok(parse_logfmt(line)),
            AnyParser::Jsonl(_) => parse_jsonl(line),
            AnyParser::Syslog(_) => Ok(parse_syslog(line)),
        }
    }
}

/// What formatting one event yields, by format.
pub open spec fn format_result_model(f: AnyFormatter, m: EventModel) -> Seq<char> {
    match f {
        AnyFormatter::Default(_) => logfmt_output(m),
        AnyFormatter::Jsonl(_) => json_output(m),
    }
}

impl AnyFormatter {
    /// Format one event with the picked formatter.
    pub fn format_line(&self, event: &Event) -> (r: String)
        ensures
            r@ == format_result_model(*self, event.model()),
    {
        match self {
            AnyFormatter::Default(_) => format_default(event),
            AnyFormatter::Jsonl(_) => format_jsonl(event),
        }
    }
}

/// The active level filter, upper-cased: one name per requested level, or
/// none when no levels were requested.
pub fn prepare_levels_filter(levels: &Vec<String>) -> (r: Option<Vec<String>>)
    ensures
        r is Some <==> levels@.len() > 0,
        r is Some ==> r->0@.map_values(|s: String| s@) == levels@.map_values(
            |s: String| upper_of(s@),
        ),
{
    if levels.len() == 0 {
        return None;
    }
    let mut out: Vec<String> = Vec::new();
    let mut i: usize = 0;
    while i < levels.len()
        invariant
            i <= levels@.len(),
            out@.map_values(|s: String| s@) == levels@.take(i as int).map_values(
                |s: String| upper_of(s@),
            ),
        decreases levels@.len() - i,
    {
        let u = to_upper(levels[i].as_str());
        let ghost before = out@.map_values(|s: String| s@);
        out.push(u);
        proof {
            assert(out@.map_values(|s: String| s@) =~~= before.push(upper_of(levels@[i as int]@)));
            assert(levels@.take(i as int).map_values(|s: String| upper_of(s@)).push(
                upper_of(levels@[i as int]@),
            ) =~~= levels@.take(i as int + 1).map_values(|s: String| upper_of(s@)));
        }
        i += 1;
    }
    proof {
        assert(levels@.take(levels@.len() as int) =~= levels@);
    }
    Some(out)
}

/// The active key filter: the three core names under the common-fields
/// shortcut, the requested keys when any were given, else none.
pub fn prepare_keys_filter(cli: &Cli) -> (r: Option<Vec<String>>)
    ensures
        cli.common ==> r is Some && r->0@.map_values(|s: String| s@) == seq![
            "timestamp"@,
            "level"@,
            "message"@,
        ],
        !cli.common && cli.keys@.len() > 0 ==> r is Some && r->0@.map_values(|s: String| s@)
            == cli.keys@.map_values(|s: String| s@),
        !cli.common && cli.keys@.len() == 0 ==> r is None,
{
    if cli.common {
        let mut out: Vec<String> = Vec::new();
        out.push("timestamp".to_owned());
        out.push("level".to_owned());
        out.push("message".to_owned());
        proof {
            assert(out@.map_values(|s: String| s@) =~~= seq!["timestamp"@, "level"@, "message"@]);
        }
        Some(out)
    } else if cli.keys.len() > 0 {
        let mut out: Vec<String> = Vec::new();
        let mut i: usize = 0;
        while i < cli.keys.len()
            invariant
                i <= cli.keys@.len(),
                out@.map_values(|s: String| s@) == cli.keys@.take(i as int).map_values(
                    |s: String| s@,
                ),
            decreases cli.keys@.len() - i,
        {
            let ghost before = out@.map_values(|s: String| s@);
            out.push(cli.keys[i].clone());
            proof {
                assert(out@.map_values(|s: String| s@) =~~= before.push(cli.keys@[i as int]@));
                assert(cli.keys@.take(i as int).map_values(|s: String| s@).push(
                    cli.keys@[i as int]@,
                ) =~~= cli.keys@.take(i as int + 1).map_values(|s: String| s@));
            }
            i += 1;
        }
        proof {
            assert(cli.keys@.take(cli.keys@.len() as int) =~= cli.keys@);
            assert(out@.map_values(|s: String| s@) =~~= cli.keys@.map_values(|s: String| s@));
        }
        Some(out)
    } else {
        None
    }
}

/// The view of an optional string list.
pub open spec fn filter_views(filt: Option<Vec<String>>) -> Option<Seq<Seq<char>>> {
    match filt {
        Some(v) => Some(v@.map_values(|s: String| s@)),
        None => None,
    }
}

/// Whether an event passes the level filter: with no filter everything
/// passes; with one, only events whose upper-cased level stands in it.
pub open spec fn level_passes(m: EventModel, filt: Option<Seq<Seq<char>>>) -> bool {
    match filt {
        None => true,
        Some(fs) => match m.level {
            Some(l) => fs.contains(upper_of(l)),
            None => false,
        },
    }
}

fn event_level_passes(event: &Event, filt: &Option<Vec<String>>) -> (r: bool)
    ensures
        r == level_passes(event.model(), filter_views(*filt)),
{
    match filt {
        None => true,
        Some(list) => match &event.level {
            Some(l) => {
                let u = to_upper(l.as_str());
                contains_str(list, u.as_str())
            },
            None => false,
        },
    }
}

/// The event after the key filter, when one is active.
pub open spec fn projected(m: EventModel, keys: Option<Seq<Seq<char>>>) -> EventModel {
    match keys {
        Some(ks) => project_model(m, ks),
        None => m,
    }
}

/// Whether anything of the model would be shown.
pub open spec fn displayable(m: EventModel) -> bool {
    m.timestamp is Some || m.level is Some || m.message is Some || m.fields.len() > 0
}

/// A line of only whitespace carries nothing.
pub open spec fn all_space(s: Seq<char>) -> bool {
    forall|i: int| 0 <= i < s.len() ==> is_space(#[trigger] s[i])
}

fn line_is_blank(line: &str) -> (r: bool)
    ensures
        r == all_space(line@),
{
    let cs = chars_of(line);
    let mut i: usize = 0;
    while i < cs.len()
        invariant
            i <= cs@.len(),
            cs@ == line@,
            forall|j: int| 0 <= j < i ==> is_space(#[trigger] line@[j]),
        decreases cs@.len() - i,
    {
        if !is_space_char(cs[i]) {
            return false;
        }
        i += 1;
    }
    true
}

/// What one line became.
pub enum LineOutcome {
    Skipped,
    Emitted(String),
    Filtered,
    Failed(ParseError),
}

/// Process one input line: count it; skip it when blank; parse it, dropping
/// it with a counted failure when the parser rejects it; drop it when the
/// level filter or the key filter leaves nothing to show; otherwise record
/// it and yield the formatted text.
pub fn process_line(
    parser: &AnyParser,
    formatter: &AnyFormatter,
    levels_filter: &Option<Vec<String>>,
    keys_filter: &Option<Vec<String>>,
    stats: &mut Stats,
    line: &str,
) -> (r: LineOutcome)
    requires
        old(stats).wf(),
        old(stats).lines_seen < usize::MAX,
        old(stats).events_shown < usize::MAX,
        old(stats).parse_errors < usize::MAX,
        old(stats).filtered_out < usize::MAX,
    ensures
        final(stats).wf(),
        final(stats).lines_seen == old(stats).lines_seen + 1,
        all_space(line@) ==> r is Skipped && final(stats).events_shown == old(stats).events_shown
            && final(stats).parse_errors == old(stats).parse_errors && final(stats).filtered_out
            == old(stats).filtered_out,
        !all_space(line@) ==> match parse_result_model(*parser, line@) {
            Err(syntax) => {
                &&& r is Failed
                &&& (r->Failed_0 is JsonError <==> syntax)
                &&& final(stats).parse_errors == old(stats).parse_errors + 1
                &&& final(stats).events_shown == old(stats).events_shown
                &&& final(stats).filtered_out == old(stats).filtered_out
            },
            Ok(m) => {
                let mp = projected(m, filter_views(*keys_filter));
                if !level_passes(m, filter_views(*levels_filter)) || (keys_filter is Some
                    && !displayable(mp)) {
                    &&& r is Filtered
                    &&& final(stats).filtered_out == old(stats).filtered_out + 1
                    &&& final(stats).events_shown == old(stats).events_shown
                    &&& final(stats).parse_errors == old(stats).parse_errors
                } else {
                    &&& r is Emitted
                    &&& r->Emitted_0@ == format_result_model(*formatter, mp)
                    &&& final(stats).events_shown == old(stats).events_shown + 1
                    &&& final(stats).parse_errors == old(stats).parse_errors
                    &&& final(stats).filtered_out == old(stats).filtered_out
                }
            },
        },
{
    stats.lines_seen = stats.lines_seen + 1;
    if line_is_blank(line) {
        return LineOutcome::Skipped;
    }
    let mut event = match parser.parse_line(line) {
        Ok(e) => e,
        Err(e) => {
            stats.parse_errors = stats.parse_errors + 1;
            return LineOutcome::Failed(e);
        },
    };
    if !event_level_passes(&event, levels_filter) {
        stats.filtered_out = stats.filtered_out + 1;
        return LineOutcome::Filtered;
    }
    match keys_filter {
        Some(keys) => {
            event.filter_keys(keys);
            if !event.has_displayable_content() {
                stats.filtered_out = stats.filtered_out + 1;
                return LineOutcome::Filtered;
            }
        },
        None => {
        },
    }
    stats.record_event(&event);
    let text = formatter.format_line(&event);
    LineOutcome::Emitted(text)
}

} // verus!
