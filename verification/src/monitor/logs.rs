//! Error-log payloads. A tracing layer outside the library watches for
//! error events and forwards them; composing the payload line from the event
//! target and the collected fields is plain string work and happens here.
use vstd::prelude::*;
use vstd::string::StringExecFns;

verus! {

#[derive(Debug, Clone, PartialEq, Eq, Structural)]
pub enum Severity {
    Info,
    Warning,
    Error,
}

/// One log line as the monitoring server receives it.
pub struct ProxyLog {
    pub severity: Severity,
    pub content: String,
}

impl ProxyLog {
    pub fn new(severity: Severity, content: String) -> (r: Self)
        ensures
            r.severity == severity,
            r.content == content,
    {
        ProxyLog { severity, content }
    }
}

/// The string with every trailing `, ` pair removed: field collectors append
/// one per field, and the last separator does not belong to the payload.
pub open spec fn strip_field_sep(s: Seq<char>) -> Seq<char>
    decreases s.len(),
{
    if s.len() >= 2 && s[s.len() - 2] == ',' && s[s.len() - 1] == ' ' {
        strip_field_sep(s.take(s.len() - 2))
    } else {
        s
    }
}

/// Builds the payload line `target: fields`, with the field collector's
/// trailing separators removed.
pub fn compose_log_line(target: &str, fields: &str) -> (r: String)
    ensures
        r@ == target@ + ": "@ + strip_field_sep(fields@),
{
    let n = fields.unicode_len();
    let mut end: usize = n;
    proof {
        assert(fields@.take(n as int) =~= fields@);
    }
    while end >= 2 && trailing_sep(fields, end)
        invariant
            n == fields@.len(),
            end <= n,
            strip_field_sep(fields@) == strip_field_sep(fields@.take(end as int)),
        decreases end,
    {
        proof {
            let cur = fields@.take(end as int);
            assert(cur[end - 2] == fields@[end - 2]);
            assert(cur[end - 1] == fields@[end - 1]);
            assert(cur.take(end - 2) =~= fields@.take(end - 2));
        }
        end = end - 2;
    }
    proof {
        let cur = fields@.take(end as int);
        if end >= 2 {
            assert(cur[end - 2] == fields@[end - 2]);
            assert(cur[end - 1] == fields@[end - 1]);
        }
        assert(strip_field_sep(cur) == cur);
    }
    let kept = fields.substring_char(0, end);
    let r = String::from_str(target).concat(": ").concat(kept);
    proof {
        assert(kept@ == fields@.take(end as int));
        assert(target@ + ": "@ + fields@.take(end as int) == r@);
    }
    r
}

fn trailing_sep(fields: &str, end: usize) -> (b: bool)
    requires
        2 <= end <= fields@.len(),
    ensures
        b == (fields@[end - 2] == ',' && fields@[end - 1] == ' '),
{
    let c1 = fields.get_char(end - 2);
    let c2 = fields.get_char(end - 1);
    c1 == ',' && c2 == ' '
}

} // verus!
