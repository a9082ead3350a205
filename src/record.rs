//! Journal records, the identity under which messages are counted, and
//! priority names.
use crate::counter::CountKey;
use vstd::prelude::*;

verus! {

/// One record as the journal yields it; any field may be absent.
#[derive(Debug, Clone)]
pub struct LogRecord {
    /// The message text.
    pub msg: Option<String>,
    /// The name of the process that sent the message.
    pub process: Option<String>,
    /// The priority, as a decimal code.
    pub priority: Option<String>,
    /// The systemd unit the record belongs to.
    pub unit: Option<String>,
}

/// The view of an optional string.
pub open spec fn opt_view(o: Option<String>) -> Option<Seq<char>> {
    match o {
        Some(s) => Some(s@),
        None => None,
    }
}

/// A message identity seen as (text, process, priority).
pub type IdView = (Seq<char>, Seq<char>, Seq<char>);

/// The key under which messages are counted: two records with the same
/// text, process and priority are the same message.
#[derive(Debug, Clone, PartialEq, Eq, Hash)]
pub struct MessageIdentity {
    /// Message contents.
    pub msg: String,
    /// The process that generated the message.
    pub process: String,
    /// Priority the message was sent at.
    pub priority: String,
}

impl View for MessageIdentity {
    type V = IdView;

    open spec fn view(&self) -> IdView {
        (self.msg@, self.process@, self.priority@)
    }
}

impl CountKey for MessageIdentity {
    fn same_key(&self, other: &Self) -> (r: bool) {
        self.msg == other.msg && self.process == other.process && self.priority == other.priority
    }

    fn copy_key(&self) -> (r: Self) {
        MessageIdentity {
            msg: self.msg.clone(),
            process: self.process.clone(),
            priority: self.priority.clone(),
        }
    }
}

impl MessageIdentity {
    pub fn new(msg: String, process: String, priority: String) -> (r: Self)
        ensures
            r@ == (msg@, process@, priority@),
    {
        MessageIdentity { msg, process, priority }
    }
}

/// A record can be counted only if it has text, process and priority.
pub open spec fn is_complete(rec: LogRecord) -> bool {
    rec.msg.is_some() && rec.process.is_some() && rec.priority.is_some()
}

/// The identity of a complete record.
pub open spec fn identity_of(rec: LogRecord) -> IdView {
    (rec.msg.unwrap()@, rec.process.unwrap()@, rec.priority.unwrap()@)
}

/// The size of a message: the length of its UTF-8 encoding in bytes, as
/// `str::len` reports it.
pub open spec fn msg_size(m: Seq<char>) -> u64 {
    vstd::utf8::encode_utf8(m).len() as usize as u64
}

/// The name of a syslog priority code; `unknown` for any other text.
pub open spec fn priority_label(code: Seq<char>) -> Seq<char> {
    if code.len() != 1 {
        "unknown"@
    } else if code[0] == '0' {
        "emergency"@
    } else if code[0] == '1' {
        "alert"@
    } else if code[0] == '2' {
        "critical"@
    } else if code[0] == '3' {
        "error"@
    } else if code[0] == '4' {
        "warn"@
    } else if code[0] == '5' {
        "notice"@
    } else if code[0] == '6' {
        "info"@
    } else if code[0] == '7' {
        "debug"@
    } else {
        "unknown"@
    }
}

/// Turns a numeric priority string into a syslog priority name.
pub fn pretty_priority(prio: &str) -> (r: String)
    ensures
        r@ == priority_label(prio@),
{
    if prio.unicode_len() != 1 {
        return "unknown".to_owned();
    }
    let c = prio.get_char(0);
    let name = if c == '0' {
        "emergency"
    } else if c == '1' {
        "alert"
    } else if c == '2' {
        "critical"
    } else if c == '3' {
        "error"
    } else if c == '4' {
        "warn"
    } else if c == '5' {
        "notice"
    } else if c == '6' {
        "info"
    } else if c == '7' {
        "debug"
    } else {
        "unknown"
    };
    name.to_owned()
}

} // verus!
