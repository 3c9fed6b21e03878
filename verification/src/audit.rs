//! The audit stream's records: event types and their rendering as
//! single-line JSON.  Writing the line to stderr or a file is the
//! surrounding program's part; each record is rendered exactly once per
//! event.

use vstd::prelude::*;

use crate::num::i64_dec_digits;
use crate::text::push_str_chars;
use crate::num::u64_dec_digits;

verus! {

/// One auditable event.
pub enum AuditEvent {
    ToolCallAllowed { tool: String, params: String },
    ToolCallDenied { tool: String, params: String, reason: String },
    MessageReceived { chat_id: i64, user_id: i64, username: String },
    UnauthorizedUser { user_id: i64, username: String },
    ApiCall { endpoint: String, status: u16 },
}

// ── String escaping ─────────────────────────────────────────────────────────

/// Lowercase hexadecimal digit character.
pub open spec fn hex_char(d: int) -> char {
    if d == 0 { '0' }
    else if d == 1 { '1' }
    else if d == 2 { '2' }
    else if d == 3 { '3' }
    else if d == 4 { '4' }
    else if d == 5 { '5' }
    else if d == 6 { '6' }
    else if d == 7 { '7' }
    else if d == 8 { '8' }
    else if d == 9 { '9' }
    else if d == 10 { 'a' }
    else if d == 11 { 'b' }
    else if d == 12 { 'c' }
    else if d == 13 { 'd' }
    else if d == 14 { 'e' }
    else { 'f' }
}

/// How one character appears inside a JSON string literal.
pub open spec fn escape_char(c: char) -> Seq<char> {
    if c == '"' {
        seq!['\\', '"']
    } else if c == '\\' {
        seq!['\\', '\\']
    } else if c == '\n' {
        seq!['\\', 'n']
    } else if c == '\r' {
        seq!['\\', 'r']
    } else if c == '\t' {
        seq!['\\', 't']
    } else if (c as u32) < 0x20 {
        seq!['\\', 'u', '0', '0', hex_char((c as u32 / 16) as int), hex_char((c as u32 % 16) as int)]
    } else {
        seq![c]
    }
}

/// A text escaped for a JSON string literal.
pub open spec fn escape_seq(s: Seq<char>) -> Seq<char>
    decreases s.len(),
{
    if s.len() == 0 {
        Seq::empty()
    } else {
        escape_char(s[0]) + escape_seq(s.skip(1))
    }
}

fn hex_char_of(d: u32) -> (c: char)
    requires
        d < 16,
    ensures
        c == hex_char(d as int),
{
    if d == 0 { '0' }
    else if d == 1 { '1' }
    else if d == 2 { '2' }
    else if d == 3 { '3' }
    else if d == 4 { '4' }
    else if d == 5 { '5' }
    else if d == 6 { '6' }
    else if d == 7 { '7' }
    else if d == 8 { '8' }
    else if d == 9 { '9' }
    else if d == 10 { 'a' }
    else if d == 11 { 'b' }
    else if d == 12 { 'c' }
    else if d == 13 { 'd' }
    else if d == 14 { 'e' }
    else { 'f' }
}

/// Append `s`, escaped for a JSON string literal, to `out`.
pub fn push_escaped(s: &str, out: &mut Vec<char>)
    ensures
        final(out)@ == old(out)@ + escape_seq(s@),
{
    let chars = crate::text::str_to_chars(s);
    let n = chars.len();
    let mut i: usize = 0;
    proof {
        assert(chars@.skip(0) =~= chars@);
    }
    while i < n
        invariant
            i <= n,
            n == chars@.len(),
            chars@ == s@,
            out@ + escape_seq(chars@.skip(i as int)) == old(out)@ + escape_seq(chars@),
        decreases n - i,
    {
        let c = chars[i];
        let ghost pre = out@;
        proof {
            assert(chars@.skip(i as int)[0] == c);
            assert(chars@.skip(i as int).skip(1) =~= chars@.skip(i + 1));
        }
        let cv = c as u32;
        if c == '"' {
            out.push('\\');
            out.push('"');
        } else if c == '\\' {
            out.push('\\');
            out.push('\\');
        } else if c == '\n' {
            out.push('\\');
            out.push('n');
        } else if c == '\r' {
            out.push('\\');
            out.push('r');
        } else if c == '\t' {
            out.push('\\');
            out.push('t');
        } else if cv < 0x20 {
            out.push('\\');
            out.push('u');
            out.push('0');
            out.push('0');
            out.push(hex_char_of(cv / 16));
            out.push(hex_char_of(cv % 16));
        } else {
            out.push(c);
        }
        proof {
            assert(out@ =~= pre + escape_char(c));
            assert(out@ + escape_seq(chars@.skip(i + 1)) =~= pre + (escape_char(c) + escape_seq(
                chars@.skip(i + 1),
            )));
        }
        i = i + 1;
    }
    proof {
        assert(escape_seq(chars@.skip(n as int)) =~= Seq::<char>::empty());
        assert(out@ =~= out@ + escape_seq(chars@.skip(n as int)));
    }
}

/// Escape a text for inclusion in a JSON string literal.
pub fn escape_string(s: &str) -> (r: String)
    ensures
        r@ == escape_seq(s@),
{
    let mut out: Vec<char> = Vec::new();
    push_escaped(s, &mut out);
    proof {
        assert(Seq::<char>::empty() + escape_seq(s@) =~= escape_seq(s@));
    }
    crate::text::chars_to_string(&out)
}

// ── Record rendering ────────────────────────────────────────────────────────

/// The one-line JSON record for an event at time `ts` (seconds since the
/// Unix epoch).
pub open spec fn audit_record_spec(e: AuditEvent, ts: u64) -> Seq<char> {
    match e {
        AuditEvent::ToolCallAllowed { tool, params } => "{\"event\":\"tool_call_allowed\",\"ts\":"@
            + u64_dec_digits(ts as int) + ",\"tool\":\""@ + escape_seq(tool@) + "\",\"params\":\""@
            + escape_seq(params@) + "\"}"@,
        AuditEvent::ToolCallDenied { tool, params, reason } => "{\"event\":\"tool_call_denied\",\"ts\":"@
            + u64_dec_digits(ts as int) + ",\"tool\":\""@ + escape_seq(tool@) + "\",\"params\":\""@
            + escape_seq(params@) + "\",\"reason\":\""@ + escape_seq(reason@) + "\"}"@,
        AuditEvent::MessageReceived { chat_id, user_id, username } => "{\"event\":\"message_received\",\"ts\":"@
            + u64_dec_digits(ts as int) + ",\"chat_id\":"@ + i64_dec_digits(chat_id as int)
            + ",\"user_id\":"@ + i64_dec_digits(user_id as int) + ",\"username\":\""@ + escape_seq(
            username@,
        ) + "\"}"@,
        AuditEvent::UnauthorizedUser { user_id, username } => "{\"event\":\"unauthorized_user\",\"ts\":"@
            + u64_dec_digits(ts as int) + ",\"user_id\":"@ + i64_dec_digits(user_id as int)
            + ",\"username\":\""@ + escape_seq(username@) + "\"}"@,
        AuditEvent::ApiCall { endpoint, status } => "{\"event\":\"api_call\",\"ts\":"@
            + u64_dec_digits(ts as int) + ",\"endpoint\":\""@ + escape_seq(endpoint@)
            + "\",\"status\":"@ + u64_dec_digits(status as int) + "}"@,
    }
}

/// Render the record for an event, exactly as the audit stream carries it.
pub fn render_audit_record(e: &AuditEvent, ts: u64) -> (r: String)
    ensures
        r@ == audit_record_spec(*e, ts),
{
    let mut out: Vec<char> = Vec::new();
    match e {
        AuditEvent::ToolCallAllowed { tool, params } => {
            push_str_chars("{\"event\":\"tool_call_allowed\",\"ts\":", &mut out);
            crate::num::push_u64_dec(ts, &mut out);
            push_str_chars(",\"tool\":\"", &mut out);
            push_escaped(tool.as_str(), &mut out);
            push_str_chars("\",\"params\":\"", &mut out);
            push_escaped(params.as_str(), &mut out);
            push_str_chars("\"}", &mut out);
        },
        AuditEvent::ToolCallDenied { tool, params, reason } => {
            push_str_chars("{\"event\":\"tool_call_denied\",\"ts\":", &mut out);
            crate::num::push_u64_dec(ts, &mut out);
            push_str_chars(",\"tool\":\"", &mut out);
            push_escaped(tool.as_str(), &mut out);
            push_str_chars("\",\"params\":\"", &mut out);
            push_escaped(params.as_str(), &mut out);
            push_str_chars("\",\"reason\":\"", &mut out);
            push_escaped(reason.as_str(), &mut out);
            push_str_chars("\"}", &mut out);
        },
        AuditEvent::MessageReceived { chat_id, user_id, username } => {
            push_str_chars("{\"event\":\"message_received\",\"ts\":", &mut out);
            crate::num::push_u64_dec(ts, &mut out);
            push_str_chars(",\"chat_id\":", &mut out);
            crate::num::push_i64_dec(*chat_id, &mut out);
            push_str_chars(",\"user_id\":", &mut out);
            crate::num::push_i64_dec(*user_id, &mut out);
            push_str_chars(",\"username\":\"", &mut out);
            push_escaped(username.as_str(), &mut out);
            push_str_chars("\"}", &mut out);
        },
        AuditEvent::UnauthorizedUser { user_id, username } => {
            push_str_chars("{\"event\":\"unauthorized_user\",\"ts\":", &mut out);
            crate::num::push_u64_dec(ts, &mut out);
            push_str_chars(",\"user_id\":", &mut out);
            crate::num::push_i64_dec(*user_id, &mut out);
            push_str_chars(",\"username\":\"", &mut out);
            push_escaped(username.as_str(), &mut out);
            push_str_chars("\"}", &mut out);
        },
        AuditEvent::ApiCall { endpoint, status } => {
            push_str_chars("{\"event\":\"api_call\",\"ts\":", &mut out);
            crate::num::push_u64_dec(ts, &mut out);
            push_str_chars(",\"endpoint\":\"", &mut out);
            push_escaped(endpoint.as_str(), &mut out);
            push_str_chars("\",\"status\":", &mut out);
            crate::num::push_u64_dec(*status as u64, &mut out);
            push_str_chars("}", &mut out);
        },
    }
    crate::text::chars_to_string(&out)
}

} // verus!
