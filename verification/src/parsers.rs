//! The parsing contract and the three parsers behind it.

use vstd::prelude::*;

pub use crate::jsonl::ParseError;

use crate::event::{Event, EventModel};
use crate::jsonl::{parse_jsonl, jsonl_model, json_line_fields};
use crate::logfmt::{parse_logfmt, logfmt_model};
use crate::syslog::{parse_syslog, syslog_model};
use crate::value::ValModel;

verus! {

/// One parser: a raw line in, one normalized event or a classified failure
/// out. Each impl pins its exact result below.
pub trait LogParser {
    fn parse(&self, line: &str) -> (r: Result<Event, ParseError>)
        ensures
            r is Ok ==> r->Ok_0.wf(),
    ;
}

/// The permissive `key=value` parser; never fails.
pub struct LogfmtParser {}

impl LogfmtParser {
    pub fn new() -> (r: Self) {
        LogfmtParser {  }
    }
}

impl LogParser for LogfmtParser {
    fn parse(&self, line: &str) -> (r: Result<Event, ParseError>)
        ensures
            r is Ok,
            r->Ok_0.model() == logfmt_model(line@),
    {
        Ok(parse_logfmt(line))
    }
}

/// The strict one-JSON-object-per-line parser.
pub struct JsonlParser {}

impl JsonlParser {
    pub fn new() -> (r: Self) {
        JsonlParser {  }
    }
}

impl LogParser for JsonlParser {
    fn parse(&self, line: &str) -> (r: Result<Event, ParseError>)
        ensures
            r is Ok <==> json_line_fields(line@) is Ok,
            r is Ok ==> r->Ok_0.model() == jsonl_model(json_line_fields(line@)->Ok_0),
            r is Err ==> (r->Err_0 is JsonError <==> json_line_fields(line@) == Err::<
                Seq<(Seq<char>, ValModel)>,
                bool,
            >(true)),
            r is Err ==> (r->Err_0 matches ParseError::InvalidFormat(m) ==> m@
                == "Expected JSON object"@),
    {
        parse_jsonl(line)
    }
}

/// The syslog-style parser; never fails.
pub struct SyslogParser {}

impl SyslogParser {
    pub fn new() -> (r: Self) {
        SyslogParser {  }
    }
}

impl LogParser for SyslogParser {
    fn parse(&self, line: &str) -> (r: Result<Event, ParseError>)
        ensures
            r is Ok,
            r->Ok_0.model() == syslog_model(line@),
    {
        Ok(parse_syslog(line))
    }
}

} // verus!
