//! Audit records: what is written to the event log, and at which level.

use vstd::prelude::*;

use crate::text;

verus! {

/// Severity that a caller gives to an audit message.
#[derive(Clone, Copy, Debug, PartialEq, Eq, Structural)]
pub enum Level {
    Error,
    Warn,
    Info,
    Debug,
    Trace,
}

/// Something worth auditing, before it is attributed to an event source.
#[derive(Clone, Debug)]
pub struct AuditEvent {
    pub level: Level,
    pub event_id: u32,
    pub message: String,
}

/// What an [`AuditEvent`] says.
pub struct AuditEventView {
    pub level: Level,
    pub event_id: u32,
    pub message: Seq<char>,
}

impl View for AuditEvent {
    type V = AuditEventView;

    open spec fn view(&self) -> AuditEventView {
        AuditEventView { level: self.level, event_id: self.event_id, message: self.message@ }
    }
}

/// One line for the event log: the level it is written at, and its text.
#[derive(Clone, Debug)]
pub struct AuditRecord {
    pub level: Level,
    pub text: String,
}

/// What an [`AuditRecord`] says.
pub struct AuditRecordView {
    pub level: Level,
    pub text: Seq<char>,
}

impl View for AuditRecord {
    type V = AuditRecordView;

    open spec fn view(&self) -> AuditRecordView {
        AuditRecordView { level: self.level, text: self.text@ }
    }
}

/// Messages below `Info` are written as `Info`: the event log knows nothing finer.
pub open spec fn written_level(level: Level) -> Level {
    match level {
        Level::Error => Level::Error,
        Level::Warn => Level::Warn,
        Level::Info | Level::Debug | Level::Trace => Level::Info,
    }
}

/// `[event_id][source] message`
pub open spec fn log_line(event_id: u32, source: Seq<char>, message: Seq<char>) -> Seq<char> {
    seq!['['] + text::decimal(event_id as nat) + seq![']', '['] + source + seq![']', ' ']
        + message
}

/// `[category][severity][event_id] message`
pub open spec fn structured_message(
    event_id: u32,
    category: Seq<char>,
    severity: Seq<char>,
    message: Seq<char>,
) -> Seq<char> {
    seq!['['] + category + seq![']', '['] + severity + seq![']', '['] + text::decimal(
        event_id as nat,
    ) + seq![']', ' '] + message
}

/// The record that a message leaves in the log of `source`.
pub open spec fn record_of(
    source: Seq<char>,
    level: Level,
    event_id: u32,
    message: Seq<char>,
) -> AuditRecordView {
    AuditRecordView { level: written_level(level), text: log_line(event_id, source, message) }
}

/// An event source under which audit records are written.
pub struct AuditGuard {
    source: String,
}

impl View for AuditGuard {
    type V = Seq<char>;

    /// The name of the event source.
    closed spec fn view(&self) -> Seq<char> {
        self.source@
    }
}

impl AuditGuard {
    /// Audit records under the event source `source`.
    pub fn new(source: &str) -> (guard: Self)
        ensures
            guard@ == source@,
    {
        Self { source: source.to_owned() }
    }

    /// The record for a message with a specific level and event ID.
    pub fn log(&self, level: Level, event_id: u32, message: &str) -> (record: AuditRecord)
        ensures
            record@ == record_of(self@, level, event_id, message@),
            level == Level::Error <==> record.level == Level::Error,
            level == Level::Warn <==> record.level == Level::Warn,
            record.level == Level::Error || record.level == Level::Warn || record.level
                == Level::Info,
            record.text@ == "["@ + text::decimal(event_id as nat) + "]["@ + self@ + "] "@ + message@,
    {
        let written = match level {
            Level::Info => Level::Info,
            Level::Warn => Level::Warn,
            Level::Error => Level::Error,
            _ => Level::Info,
        };
        proof {
            reveal_strlit("[");
            reveal_strlit("][");
            reveal_strlit("] ");
        }
        let mut line = String::new();
        line.append("[");
        text::push_decimal(&mut line, event_id as u64);
        line.append("][");
        line.append(self.source.as_str());
        line.append("] ");
        line.append(message);
        proof {
            assert(line@ =~= log_line(event_id, self@, message@));
            law_log_line(event_id, self@, message@);
        }
        AuditRecord { level: written, text: line }
    }

    /// The record for a message with category and severity fields in front.
    pub fn log_structured(
        &self,
        level: Level,
        event_id: u32,
        category: &str,
        severity: &str,
        message: &str,
    ) -> (record: AuditRecord)
        ensures
            record@ == record_of(
                self@,
                level,
                event_id,
                structured_message(event_id, category@, severity@, message@),
            ),
    {
        proof {
            reveal_strlit("[");
            reveal_strlit("][");
            reveal_strlit("] ");
        }
        let mut structured = String::new();
        structured.append("[");
        structured.append(category);
        structured.append("][");
        structured.append(severity);
        structured.append("][");
        text::push_decimal(&mut structured, event_id as u64);
        structured.append("] ");
        structured.append(message);
        assert(structured@ =~= structured_message(event_id, category@, severity@, message@));
        self.log(level, event_id, structured.as_str())
    }
}

/// Errors and warnings are written as such, and everything else as a note.
pub proof fn law_written_level(level: Level)
    ensures
        level == Level::Error ==> written_level(level) == Level::Error,
        level == Level::Warn ==> written_level(level) == Level::Warn,
        level != Level::Error && level != Level::Warn ==> written_level(level) == Level::Info,
{
}

/// A line names the event and its source in brackets, and then holds the message as it
/// is.
pub proof fn law_log_line(event_id: u32, source: Seq<char>, message: Seq<char>)
    ensures
        log_line(event_id, source, message) == "["@ + text::decimal(event_id as nat) + "]["@
            + source + "] "@ + message,
{
    reveal_strlit("[");
    reveal_strlit("][");
    reveal_strlit("] ");
    assert(log_line(event_id, source, message) =~= "["@ + text::decimal(event_id as nat) + "]["@
        + source + "] "@ + message);
}

/// A structured message names its category, its severity and the event in brackets, and
/// then holds the message as it is.
pub proof fn law_structured_message(
    event_id: u32,
    category: Seq<char>,
    severity: Seq<char>,
    message: Seq<char>,
)
    ensures
        structured_message(event_id, category, severity, message) == "["@ + category + "]["@
            + severity + "]["@ + text::decimal(event_id as nat) + "] "@ + message,
{
    reveal_strlit("[");
    reveal_strlit("][");
    reveal_strlit("] ");
    assert(structured_message(event_id, category, severity, message) =~= "["@ + category + "]["@
        + severity + "]["@ + text::decimal(event_id as nat) + "] "@ + message);
}

/// A record holds the written level and the whole line.
pub proof fn law_record(source: Seq<char>, level: Level, event_id: u32, message: Seq<char>)
    ensures
        ({
            let record = record_of(source, level, event_id, message);
            &&& record.text == "["@ + text::decimal(event_id as nat) + "]["@ + source + "] "@
                + message
            &&& record.level == Level::Error <==> level == Level::Error
            &&& record.level == Level::Warn <==> level == Level::Warn
            &&& record.level == Level::Error || record.level == Level::Warn || record.level
                == Level::Info
        }),
{
    law_log_line(event_id, source, message);
}

/// What an event or a record says is what it holds.
pub proof fn law_views(event: AuditEvent, record: AuditRecord)
    ensures
        event@.level == event.level,
        event@.event_id == event.event_id,
        event@.message == event.message@,
        record@.level == record.level,
        record@.text == record.text@,
{
}

} // verus!
