use vstd::prelude::*;

use crate::json::{json_quoted, write_quoted};

verus! {

/// The severity of a diagnostic event. The numeric rank used on the wire is
/// the declaration order: `Info` is 0, `Warning` 1, `Error` 2, `Fatal` 3.
#[derive(Clone, Copy, Debug, PartialEq, Eq, Structural)]
pub enum SeverityKind {
    Info,
    Warning,
    Error,
    Fatal,
}

/// The upper-case label a severity carries in a log record.
pub open spec fn severity_label(s: SeverityKind) -> Seq<char> {
    match s {
        SeverityKind::Info => "INFO"@,
        SeverityKind::Warning => "WARNING"@,
        SeverityKind::Error => "ERROR"@,
        SeverityKind::Fatal => "FATAL"@,
    }
}

impl SeverityKind {
    /// The severity of the given numeric rank, or the rank itself where no
    /// severity has it.
    pub fn try_from(val: u8) -> (r: Result<SeverityKind, u8>)
        ensures
            val == 0 ==> r == Ok::<SeverityKind, u8>(SeverityKind::Info),
            val == 1 ==> r == Ok::<SeverityKind, u8>(SeverityKind::Warning),
            val == 2 ==> r == Ok::<SeverityKind, u8>(SeverityKind::Error),
            val == 3 ==> r == Ok::<SeverityKind, u8>(SeverityKind::Fatal),
            val >= 4 ==> r == Err::<SeverityKind, u8>(val),
    {
        if val == 0 {
            Ok(SeverityKind::Info)
        } else if val == 1 {
            Ok(SeverityKind::Warning)
        } else if val == 2 {
            Ok(SeverityKind::Error)
        } else if val == 3 {
            Ok(SeverityKind::Fatal)
        } else {
            Err(val)
        }
    }

    /// The label of this severity.
    pub fn label(&self) -> (r: String)
        ensures
            r@ == severity_label(*self),
    {
        match self {
            SeverityKind::Info => String::from_str("INFO"),
            SeverityKind::Warning => String::from_str("WARNING"),
            SeverityKind::Error => String::from_str("ERROR"),
            SeverityKind::Fatal => String::from_str("FATAL"),
        }
    }
}

/// One diagnostic event: a message, an optional secondary context (such as
/// an error's underlying cause or a request path), and a severity.
#[derive(Clone, Debug)]
pub struct Event {
    pub msg: String,
    pub source: Option<String>,
    pub severity: SeverityKind,
}

/// The single-line JSON record an event is emitted as: an object with the
/// members `msg`, `source` (`null` where absent) and `severity`.
pub open spec fn event_json(msg: Seq<char>, source: Option<Seq<char>>, severity: SeverityKind) -> Seq<char> {
    "{\"msg\":"@ + json_quoted(msg) + ",\"source\":"@ + (match source {
        Some(s) => json_quoted(s),
        None => "null"@,
    }) + ",\"severity\":"@ + json_quoted(severity_label(severity)) + "}"@
}

/// Renders an event as its single-line JSON record. This never fails: every
/// event has a record.
pub fn encode_event(e: &Event) -> (r: String)
    ensures
        r@ == event_json(e.msg@, e.source.deep_view(), e.severity),
{
    let mut out = String::from_str("{\"msg\":");
    write_quoted(&mut out, e.msg.as_str());
    out.append(",\"source\":");
    match &e.source {
        Some(s) => write_quoted(&mut out, s.as_str()),
        None => out.append("null"),
    }
    out.append(",\"severity\":");
    let lab = e.severity.label();
    write_quoted(&mut out, lab.as_str());
    out.append("}");
    proof {
        assert(out@ =~= event_json(e.msg@, e.source.deep_view(), e.severity));
    }
    out
}

} // verus!
