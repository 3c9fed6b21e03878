//! The tool executor's decision core: dispatch a tool invocation to a
//! built-in or a skill, check it against the capability policy, and say
//! which audit record to emit and which operation to perform.
//!
//! The filesystem and process work itself is done by the surrounding
//! program, which follows the returned plan: emit the audit record first,
//! then perform the action.  A plan without an action performs nothing.

use vstd::prelude::*;
use vstd::string::*;

use crate::audit::AuditEvent;
use crate::capability::command_allowed;
use crate::capability::command_denied_reason;
use crate::capability::opt_str_view;
use crate::capability::resolved_allowed;
use crate::capability::resolved_denied_reason;
use crate::capability::CapabilityChecker;
use crate::capability::CapabilityResult;
use crate::text::eq_chars;
use crate::text::contains_seq_at;
use crate::text::str_to_chars;

verus! {

// ── Tool inputs ─────────────────────────────────────────────────────────────

/// A structured tool argument: the executor reads strings and lists of
/// strings; anything else is opaque here.
pub enum ToolValue {
    Str(String),
    List(Vec<ToolValue>),
    Other,
}

/// The structured input of one tool invocation: named arguments in order.
pub struct ToolInput {
    pub fields: Vec<(String, ToolValue)>,
}

/// The first field named `key`.
pub open spec fn field_of(fs: Seq<(String, ToolValue)>, key: Seq<char>) -> Option<ToolValue>
    decreases fs.len(),
{
    if fs.len() == 0 {
        None
    } else if fs[0].0@ == key {
        Some(fs[0].1)
    } else {
        field_of(fs.skip(1), key)
    }
}

/// The first field named `key`, when it is a string.
pub open spec fn str_field(fs: Seq<(String, ToolValue)>, key: Seq<char>) -> Option<Seq<char>> {
    match field_of(fs, key) {
        Some(ToolValue::Str(s)) => Some(s@),
        _ => None,
    }
}

/// The string elements of a list, in order; other elements are dropped.
pub open spec fn list_strs(vs: Seq<ToolValue>) -> Seq<Seq<char>>
    decreases vs.len(),
{
    if vs.len() == 0 {
        Seq::empty()
    } else {
        match vs[0] {
            ToolValue::Str(s) => seq![s@] + list_strs(vs.skip(1)),
            _ => list_strs(vs.skip(1)),
        }
    }
}

/// The `args` list of a command invocation: its string elements, or nothing.
pub open spec fn args_of(fs: Seq<(String, ToolValue)>) -> Seq<Seq<char>> {
    match field_of(fs, "args"@) {
        Some(ToolValue::List(l)) => list_strs(l@),
        _ => Seq::empty(),
    }
}

// ── Plans ───────────────────────────────────────────────────────────────────

/// The operation an authorized invocation performs.
pub enum ToolAction {
    ReadFile { path: String },
    WriteFile { path: String, content: String },
    ListDirectory { path: String },
    RunCommand { command: String, args: Vec<String> },
    RunSkill { tool_name: String },
}

/// What one tool invocation comes to: at most one audit record, emitted
/// before anything runs; at most one operation; or an immediate error text
/// for the tool result.  An erroneous or denied invocation has no action,
/// so nothing touches the filesystem and no process is spawned.
pub struct ToolPlan {
    pub audit: Option<AuditEvent>,
    pub action: Option<ToolAction>,
    pub error: Option<String>,
}

/// A malformed invocation: no audit record, no action, only an error text.
pub open spec fn is_param_error(r: ToolPlan, msg: Seq<char>) -> bool {
    &&& r.audit is None
    &&& r.action is None
    &&& r.error matches Some(e) && e@ == msg
}

/// A denied invocation: exactly one denial record carrying the serialized
/// parameters and the reason, no action, and an error text naming the
/// reason.
pub open spec fn is_denied(r: ToolPlan, tool: Seq<char>, params: Seq<char>, reason: Seq<char>)
    -> bool {
    &&& r.audit matches Some(AuditEvent::ToolCallDenied { tool: t, params: p, reason: rr })
        && t@ == tool && p@ == params && rr@ == reason
    &&& r.action is None
    &&& r.error matches Some(e) && e@ == "access denied: "@ + reason
}

/// An authorized invocation: exactly one allowance record carrying the
/// serialized parameters, and no immediate error.
pub open spec fn is_allowed(r: ToolPlan, tool: Seq<char>, params: Seq<char>) -> bool {
    &&& r.audit matches Some(AuditEvent::ToolCallAllowed { tool: t, params: p }) && t@ == tool
        && p@ == params
    &&& r.error is None
}

// ── The executor ────────────────────────────────────────────────────────────

/// The tool executor: the capability policy it consults and the wall-clock
/// budget of the run-command tool.
pub struct ToolExecutor<'a> {
    pub caps: &'a CapabilityChecker,
    pub command_timeout_secs: u64,
}

impl<'a> ToolExecutor<'a> {
    pub fn new(caps: &'a CapabilityChecker, command_timeout_secs: u64) -> (r: ToolExecutor<'a>)
        ensures
            r.caps == caps,
            r.command_timeout_secs == command_timeout_secs,
    {
        ToolExecutor { caps, command_timeout_secs }
    }

    /// Decide one invocation: dispatch on the tool name, extract the
    /// required parameters, authorize, and plan the audit record and the
    /// operation.  `params_str` is the serialized input, carried verbatim
    /// into the audit record; `skill_handled` says whether an attached
    /// skill runner handles this name.  `canon` and `canon_entries` are the
    /// canonical forms of the invocation's path parameter (see
    /// `authorized_path_param`) and of the matching allowlist, resolved by
    /// the caller.
    pub fn plan(
        &self,
        name: &str,
        input: &ToolInput,
        params_str: &str,
        skill_handled: bool,
        canon: Option<&String>,
        canon_entries: &Vec<String>,
    ) -> (r: ToolPlan)
        ensures
            ({
                let fs = input.fields@;
                let ps = params_str@;
                let cv = opt_str_view(canon);
                let forms = canon_entries.deep_view();
                if name@ == "read_file"@ {
                    match str_field(fs, "path"@) {
                        None => is_param_error(r, "missing 'path' parameter"@),
                        Some(path) => {
                            let ll = self.caps.allowed_read_paths@.len() as int;
                            if resolved_allowed(cv, forms, ll) {
                                &&& is_allowed(r, "read_file"@, ps)
                                &&& r.action matches Some(ToolAction::ReadFile { path: p })
                                    && p@ == path
                            } else {
                                is_denied(
                                    r,
                                    "read_file"@,
                                    ps,
                                    resolved_denied_reason(path, cv, ll, "read"@),
                                )
                            }
                        },
                    }
                } else if name@ == "write_file"@ {
                    match str_field(fs, "path"@) {
                        None => is_param_error(r, "missing 'path' parameter"@),
                        Some(path) => match str_field(fs, "content"@) {
                            None => is_param_error(r, "missing 'content' parameter"@),
                            Some(content) => {
                                let ll = self.caps.allowed_write_paths@.len() as int;
                                if resolved_allowed(cv, forms, ll) {
                                    &&& is_allowed(r, "write_file"@, ps)
                                    &&& r.action matches Some(
                                        ToolAction::WriteFile { path: p, content: c },
                                    ) && p@ == path && c@ == content
                                } else {
                                    is_denied(
                                        r,
                                        "write_file"@,
                                        ps,
                                        resolved_denied_reason(path, cv, ll, "write"@),
                                    )
                                }
                            },
                        },
                    }
                } else if name@ == "list_directory"@ {
                    match str_field(fs, "path"@) {
                        None => is_param_error(r, "missing 'path' parameter"@),
                        Some(path) => {
                            let ll = self.caps.allowed_read_paths@.len() as int;
                            if resolved_allowed(cv, forms, ll) {
                                &&& is_allowed(r, "list_directory"@, ps)
                                &&& r.action matches Some(ToolAction::ListDirectory { path: p })
                                    && p@ == path
                            } else {
                                is_denied(
                                    r,
                                    "list_directory"@,
                                    ps,
                                    resolved_denied_reason(path, cv, ll, "read"@),
                                )
                            }
                        },
                    }
                } else if name@ == "run_command"@ {
                    match str_field(fs, "command"@) {
                        None => is_param_error(r, "missing 'command' parameter"@),
                        Some(cmd) => {
                            let cmds = self.caps.allowed_commands.deep_view();
                            if command_allowed(cmd, cmds) {
                                &&& is_allowed(r, "run_command"@, ps)
                                &&& r.action matches Some(
                                    ToolAction::RunCommand { command: c, args: a },
                                ) && c@ == cmd && a.deep_view() == args_of(fs)
                            } else {
                                is_denied(r, "run_command"@, ps, command_denied_reason(cmd, cmds))
                            }
                        },
                    }
                } else if skill_handled {
                    &&& is_allowed(r, "skill:"@ + name@, ps)
                    &&& r.action matches Some(ToolAction::RunSkill { tool_name: t }) && t@
                        == name@
                } else {
                    is_param_error(r, "unknown tool: "@ + name@)
                }
            }),
    {
        let nm = str_to_chars(name);
        if eq_chars(&nm, &str_to_chars("read_file")) {
            match get_str_param(input, "path") {
                None => missing_param_plan("missing 'path' parameter"),
                Some(path) => {
                    match self.caps.check_file_read(path.as_str(), canon, canon_entries) {
                        CapabilityResult::Allowed => ToolPlan {
                            audit: Some(
                                AuditEvent::ToolCallAllowed {
                                    tool: String::from_str("read_file"),
                                    params: String::from_str(params_str),
                                },
                            ),
                            action: Some(ToolAction::ReadFile { path }),
                            error: None,
                        },
                        CapabilityResult::Denied(reason) => denied_plan("read_file", params_str, reason),
                    }
                },
            }
        } else if eq_chars(&nm, &str_to_chars("write_file")) {
            match get_str_param(input, "path") {
                None => missing_param_plan("missing 'path' parameter"),
                Some(path) => match get_str_param(input, "content") {
                    None => missing_param_plan("missing 'content' parameter"),
                    Some(content) => {
                        match self.caps.check_file_write(path.as_str(), canon, canon_entries) {
                            CapabilityResult::Allowed => ToolPlan {
                                audit: Some(
                                    AuditEvent::ToolCallAllowed {
                                        tool: String::from_str("write_file"),
                                        params: String::from_str(params_str),
                                    },
                                ),
                                action: Some(ToolAction::WriteFile { path, content }),
                                error: None,
                            },
                            CapabilityResult::Denied(reason) => denied_plan(
                                "write_file",
                                params_str,
                                reason,
                            ),
                        }
                    },
                },
            }
        } else if eq_chars(&nm, &str_to_chars("list_directory")) {
            match get_str_param(input, "path") {
                None => missing_param_plan("missing 'path' parameter"),
                Some(path) => {
                    match self.caps.check_file_read(path.as_str(), canon, canon_entries) {
                        CapabilityResult::Allowed => ToolPlan {
                            audit: Some(
                                AuditEvent::ToolCallAllowed {
                                    tool: String::from_str("list_directory"),
                                    params: String::from_str(params_str),
                                },
                            ),
                            action: Some(ToolAction::ListDirectory { path }),
                            error: None,
                        },
                        CapabilityResult::Denied(reason) => denied_plan(
                            "list_directory",
                            params_str,
                            reason,
                        ),
                    }
                },
            }
        } else if eq_chars(&nm, &str_to_chars("run_command")) {
            match get_str_param(input, "command") {
                None => missing_param_plan("missing 'command' parameter"),
                Some(command) => {
                    match self.caps.check_command(command.as_str()) {
                        CapabilityResult::Allowed => {
                            let args = get_args(input);
                            ToolPlan {
                                audit: Some(
                                    AuditEvent::ToolCallAllowed {
                                        tool: String::from_str("run_command"),
                                        params: String::from_str(params_str),
                                    },
                                ),
                                action: Some(ToolAction::RunCommand { command, args }),
                                error: None,
                            }
                        },
                        CapabilityResult::Denied(reason) => denied_plan(
                            "run_command",
                            params_str,
                            reason,
                        ),
                    }
                },
            }
        } else if skill_handled {
            ToolPlan {
                audit: Some(
                    AuditEvent::ToolCallAllowed {
                        tool: String::from_str("skill:").concat(name),
                        params: String::from_str(params_str),
                    },
                ),
                action: Some(ToolAction::RunSkill { tool_name: String::from_str(name) }),
                error: None,
            }
        } else {
            ToolPlan {
                audit: None,
                action: None,
                error: Some(String::from_str("unknown tool: ").concat(name)),
            }
        }
    }
}

/// The plan for a missing or wrong-typed required parameter.
fn missing_param_plan(msg: &str) -> (r: ToolPlan)
    ensures
        is_param_error(r, msg@),
{
    ToolPlan { audit: None, action: None, error: Some(String::from_str(msg)) }
}

/// The plan for a denied invocation.
fn denied_plan(tool: &str, params_str: &str, reason: String) -> (r: ToolPlan)
    ensures
        is_denied(r, tool@, params_str@, reason@),
{
    ToolPlan {
        audit: Some(
            AuditEvent::ToolCallDenied {
                tool: String::from_str(tool),
                params: String::from_str(params_str),
                reason: reason.clone(),
            },
        ),
        action: None,
        error: Some(String::from_str("access denied: ").concat(reason.as_str())),
    }
}

/// The first field named `key`, when it is a string.
fn get_str_param(input: &ToolInput, key: &str) -> (r: Option<String>)
    ensures
        match r {
            Some(s) => str_field(input.fields@, key@) == Some(s@),
            None => str_field(input.fields@, key@) is None,
        },
{
    let target = str_to_chars(key);
    let n = input.fields.len();
    let mut i: usize = 0;
    proof {
        assert(input.fields@.skip(0) =~= input.fields@);
    }
    while i < n
        invariant
            i <= n,
            n == input.fields@.len(),
            target@ == key@,
            field_of(input.fields@, key@) == field_of(input.fields@.skip(i as int), key@),
        decreases n - i,
    {
        let fk = str_to_chars(input.fields[i].0.as_str());
        proof {
            assert(input.fields@.skip(i as int)[0] == input.fields@[i as int]);
            assert(input.fields@.skip(i as int).skip(1) =~= input.fields@.skip(i + 1));
        }
        if eq_chars(&fk, &target) {
            match &input.fields[i].1 {
                ToolValue::Str(s) => {
                    return Some(s.clone());
                },
                _ => {
                    return None;
                },
            }
        }
        i = i + 1;
    }
    None
}

/// The string elements of the `args` list, or nothing.
fn get_args(input: &ToolInput) -> (r: Vec<String>)
    ensures
        r.deep_view() == args_of(input.fields@),
{
    let target = str_to_chars("args");
    let n = input.fields.len();
    let mut i: usize = 0;
    proof {
        assert(input.fields@.skip(0) =~= input.fields@);
    }
    while i < n
        invariant
            i <= n,
            n == input.fields@.len(),
            target@ == "args"@,
            field_of(input.fields@, "args"@) == field_of(input.fields@.skip(i as int), "args"@),
        decreases n - i,
    {
        let fk = str_to_chars(input.fields[i].0.as_str());
        proof {
            assert(input.fields@.skip(i as int)[0] == input.fields@[i as int]);
            assert(input.fields@.skip(i as int).skip(1) =~= input.fields@.skip(i + 1));
        }
        if eq_chars(&fk, &target) {
            match &input.fields[i].1 {
                ToolValue::List(l) => {
                    return collect_strs(l);
                },
                _ => {
                    let r: Vec<String> = Vec::new();
                    proof {
                        assert(r.deep_view() =~= Seq::<Seq<char>>::empty());
                    }
                    return r;
                },
            }
        }
        i = i + 1;
    }
    let r: Vec<String> = Vec::new();
    proof {
        assert(r.deep_view() =~= Seq::<Seq<char>>::empty());
    }
    r
}

/// Keep the string elements of a list of values.
fn collect_strs(l: &Vec<ToolValue>) -> (r: Vec<String>)
    ensures
        r.deep_view() == list_strs(l@),
{
    let mut r: Vec<String> = Vec::new();
    let n = l.len();
    let mut i: usize = 0;
    proof {
        assert(l@.skip(0) =~= l@);
        assert(r.deep_view() + list_strs(l@) =~= list_strs(l@));
    }
    while i < n
        invariant
            i <= n,
            n == l@.len(),
            list_strs(l@) == r.deep_view() + list_strs(l@.skip(i as int)),
        decreases n - i,
    {
        proof {
            assert(l@.skip(i as int)[0] == l@[i as int]);
            assert(l@.skip(i as int).skip(1) =~= l@.skip(i + 1));
        }
        match &l[i] {
            ToolValue::Str(s) => {
                let ghost pre = r.deep_view();
                r.push(s.clone());
                proof {
                    assert(r.deep_view() =~~= pre.push(s@));
                    assert(r.deep_view() + list_strs(l@.skip(i + 1)) =~= pre + (seq![s@]
                        + list_strs(l@.skip(i + 1))));
                }
            },
            _ => {},
        }
        i = i + 1;
    }
    proof {
        assert(list_strs(l@.skip(n as int)) =~= Seq::<Seq<char>>::empty());
        assert(r.deep_view() =~= list_strs(l@));
    }
    r
}

/// Which file-access class an invocation's `path` parameter is checked
/// against.
pub enum PathAccess {
    ReadAccess,
    WriteAccess,
}

/// The path parameter an invocation will be authorized on, with its access
/// class: the read tools and the directory listing check reads, the write
/// tool checks writes, everything else checks no path.  The caller resolves
/// this path's canonical form (and the matching allowlist's) and hands both
/// to `plan`.
pub fn authorized_path_param(name: &str, input: &ToolInput) -> (r: Option<(String, PathAccess)>)
    ensures
        ({
            let fs = input.fields@;
            if name@ == "read_file"@ || name@ == "list_directory"@ {
                match str_field(fs, "path"@) {
                    Some(p) => r matches Some((q, a)) && q@ == p && a is ReadAccess,
                    None => r is None,
                }
            } else if name@ == "write_file"@ {
                match str_field(fs, "path"@) {
                    Some(p) => r matches Some((q, a)) && q@ == p && a is WriteAccess,
                    None => r is None,
                }
            } else {
                r is None
            }
        }),
{
    let nm = str_to_chars(name);
    if eq_chars(&nm, &str_to_chars("read_file")) || eq_chars(&nm, &str_to_chars("list_directory")) {
        match get_str_param(input, "path") {
            Some(p) => Some((p, PathAccess::ReadAccess)),
            None => None,
        }
    } else if eq_chars(&nm, &str_to_chars("write_file")) {
        match get_str_param(input, "path") {
            Some(p) => Some((p, PathAccess::WriteAccess)),
            None => None,
        }
    } else {
        None
    }
}

// ── Result texts ────────────────────────────────────────────────────────────

/// The success text of the write tool: the byte count written and the path.
pub fn write_success_message(path: &str, content: &str) -> (r: String)
    ensures
        r@ == "wrote "@ + crate::num::u64_dec_digits((content.spec_bytes().len() as usize) as int)
            + " bytes to '"@ + path@ + "'"@,
{
    String::from_str("wrote ").concat(
        crate::num::u64_to_dec_string(content.len() as u64).as_str(),
    ).concat(" bytes to '").concat(path).concat("'")
}

/// The error text of a failed read.
pub fn read_failure_message(path: &str, err: &str) -> (r: String)
    ensures
        r@ == "failed to read '"@ + path@ + "': "@ + err@,
{
    String::from_str("failed to read '").concat(path).concat("': ").concat(err)
}

/// The error text of a failed write.
pub fn write_failure_message(path: &str, err: &str) -> (r: String)
    ensures
        r@ == "failed to write '"@ + path@ + "': "@ + err@,
{
    String::from_str("failed to write '").concat(path).concat("': ").concat(err)
}

/// The error text of a failed directory listing.
pub fn list_failure_message(path: &str, err: &str) -> (r: String)
    ensures
        r@ == "failed to list '"@ + path@ + "': "@ + err@,
{
    String::from_str("failed to list '").concat(path).concat("': ").concat(err)
}

/// A command's combined output: stdout, then stderr behind a separator when
/// both are present.
pub open spec fn combined_output(out: Seq<char>, err: Seq<char>) -> Seq<char> {
    if err.len() == 0 {
        out
    } else if out.len() == 0 {
        err
    } else {
        out + "\n--- stderr ---\n"@ + err
    }
}

/// Join a command's captured streams.
pub fn combine_output(stdout: &str, stderr: &str) -> (r: String)
    ensures
        r@ == combined_output(stdout@, stderr@),
{
    if stderr.unicode_len() == 0 {
        String::from_str(stdout)
    } else if stdout.unicode_len() == 0 {
        String::from_str(stderr)
    } else {
        String::from_str(stdout).concat("\n--- stderr ---\n").concat(stderr)
    }
}

/// The error text of a command that exited with a nonzero status.
pub fn exit_failure_message(code: i64, output: &str) -> (r: String)
    ensures
        r@ == "command exited with status "@ + crate::num::i64_dec_digits(code as int) + "\n"@
            + output@,
{
    String::from_str("command exited with status ").concat(
        crate::num::i64_to_dec_string(code).as_str(),
    ).concat("\n").concat(output)
}

/// The error text of a timed-out command.
pub open spec fn timeout_message_spec(command: Seq<char>, secs: u64) -> Seq<char> {
    "command '"@ + command + "' timed out after "@ + crate::num::u64_dec_digits(secs as int)
        + "s"@
}

/// The error text of a timed-out command.
pub fn command_timeout_message(command: &str, secs: u64) -> (r: String)
    ensures
        r@ == timeout_message_spec(command@, secs),
{
    String::from_str("command '").concat(command).concat("' timed out after ").concat(
        crate::num::u64_to_dec_string(secs).as_str(),
    ).concat("s")
}

/// The text of a timed-out command always carries the words `timed out`,
/// whatever the command and the timeout were.
pub proof fn lemma_timeout_message_mentions(command: Seq<char>, secs: u64)
    ensures
        crate::text::contains_seq(timeout_message_spec(command, secs), "timed out"@),
{
    reveal_strlit("command '");
    reveal_strlit("' timed out after ");
    reveal_strlit("timed out");
    let msg = timeout_message_spec(command, secs);
    let at = 9 + command.len() + 2;
    assert forall|k: int| 0 <= k < 9 implies msg[at + k] == "timed out"@[k] by {
        assert(msg[at + k] == "' timed out after "@[2 + k]);
    }
    assert(msg.subrange(at as int, at as int + 9) =~= "timed out"@);
    assert(contains_seq_at(msg, "timed out"@, at as int));
}

// ── Built-in tool definitions ───────────────────────────────────────────────

/// One parameter in a tool's input schema.  `item_type` is the element type
/// of an array parameter.
pub struct ParamSchema {
    pub name: String,
    pub value_type: String,
    pub description: String,
    pub item_type: Option<String>,
}

/// A tool the LLM may invoke: its name, its description, and its input
/// schema as named, typed properties with a required list.
pub struct ToolDef {
    pub name: String,
    pub description: String,
    pub properties: Vec<ParamSchema>,
    pub required: Vec<String>,
}

pub open spec fn param_schema_is(
    p: ParamSchema,
    name: Seq<char>,
    ty: Seq<char>,
    desc: Seq<char>,
) -> bool {
    &&& p.name@ == name
    &&& p.value_type@ == ty
    &&& p.description@ == desc
    &&& p.item_type is None
}

/// The four built-in tools, in dispatch order.
pub fn tool_definitions() -> (r: Vec<ToolDef>)
    ensures
        r@.len() == 4,
        r@[0].name@ == "read_file"@,
        r@[0].description@ == "Read the contents of a file at the given path."@,
        r@[0].properties@.len() == 1,
        param_schema_is(
            r@[0].properties@[0],
            "path"@,
            "string"@,
            "Absolute path to the file to read"@,
        ),
        r@[0].required.deep_view() == seq!["path"@],
        r@[1].name@ == "write_file"@,
        r@[1].description@ == "Write content to a file at the given path."@,
        r@[1].properties@.len() == 2,
        param_schema_is(
            r@[1].properties@[0],
            "path"@,
            "string"@,
            "Absolute path to the file to write"@,
        ),
        param_schema_is(
            r@[1].properties@[1],
            "content"@,
            "string"@,
            "Content to write to the file"@,
        ),
        r@[1].required.deep_view() == seq!["path"@, "content"@],
        r@[2].name@ == "list_directory"@,
        r@[2].description@ == "List the contents of a directory."@,
        r@[2].properties@.len() == 1,
        param_schema_is(
            r@[2].properties@[0],
            "path"@,
            "string"@,
            "Absolute path to the directory"@,
        ),
        r@[2].required.deep_view() == seq!["path"@],
        r@[3].name@ == "run_command"@,
        r@[3].description@ == "Run a shell command and return its output."@,
        r@[3].properties@.len() == 2,
        param_schema_is(
            r@[3].properties@[0],
            "command"@,
            "string"@,
            "The command to run"@,
        ),
        r@[3].properties@[1].name@ == "args"@,
        r@[3].properties@[1].value_type@ == "array"@,
        r@[3].properties@[1].description@ == "Arguments to the command"@,
        r@[3].properties@[1].item_type matches Some(t) && t@ == "string"@,
        r@[3].required.deep_view() == seq!["command"@],
{
    let mut defs: Vec<ToolDef> = Vec::new();

    let mut props: Vec<ParamSchema> = Vec::new();
    props.push(
        ParamSchema {
            name: String::from_str("path"),
            value_type: String::from_str("string"),
            description: String::from_str("Absolute path to the file to read"),
            item_type: None,
        },
    );
    let mut req: Vec<String> = Vec::new();
    req.push(String::from_str("path"));
    proof {
        assert(req.deep_view() =~= seq!["path"@]);
    }
    defs.push(
        ToolDef {
            name: String::from_str("read_file"),
            description: String::from_str("Read the contents of a file at the given path."),
            properties: props,
            required: req,
        },
    );

    let mut props: Vec<ParamSchema> = Vec::new();
    props.push(
        ParamSchema {
            name: String::from_str("path"),
            value_type: String::from_str("string"),
            description: String::from_str("Absolute path to the file to write"),
            item_type: None,
        },
    );
    props.push(
        ParamSchema {
            name: String::from_str("content"),
            value_type: String::from_str("string"),
            description: String::from_str("Content to write to the file"),
            item_type: None,
        },
    );
    let mut req: Vec<String> = Vec::new();
    req.push(String::from_str("path"));
    req.push(String::from_str("content"));
    proof {
        assert(req.deep_view() =~= seq!["path"@, "content"@]);
    }
    defs.push(
        ToolDef {
            name: String::from_str("write_file"),
            description: String::from_str("Write content to a file at the given path."),
            properties: props,
            required: req,
        },
    );

    let mut props: Vec<ParamSchema> = Vec::new();
    props.push(
        ParamSchema {
            name: String::from_str("path"),
            value_type: String::from_str("string"),
            description: String::from_str("Absolute path to the directory"),
            item_type: None,
        },
    );
    let mut req: Vec<String> = Vec::new();
    req.push(String::from_str("path"));
    proof {
        assert(req.deep_view() =~= seq!["path"@]);
    }
    defs.push(
        ToolDef {
            name: String::from_str("list_directory"),
            description: String::from_str("List the contents of a directory."),
            properties: props,
            required: req,
        },
    );

    let mut props: Vec<ParamSchema> = Vec::new();
    props.push(
        ParamSchema {
            name: String::from_str("command"),
            value_type: String::from_str("string"),
            description: String::from_str("The command to run"),
            item_type: None,
        },
    );
    props.push(
        ParamSchema {
            name: String::from_str("args"),
            value_type: String::from_str("array"),
            description: String::from_str("Arguments to the command"),
            item_type: Some(String::from_str("string")),
        },
    );
    let mut req: Vec<String> = Vec::new();
    req.push(String::from_str("command"));
    proof {
        assert(req.deep_view() =~= seq!["command"@]);
    }
    defs.push(
        ToolDef {
            name: String::from_str("run_command"),
            description: String::from_str("Run a shell command and return its output."),
            properties: props,
            required: req,
        },
    );

    defs
}

} // verus!
