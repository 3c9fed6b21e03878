//! The capability checker: pure authorization over path allowlists and
//! command allowlists.
//!
//! Paths are compared in canonical form.  Canonicalizing resolves symlinks
//! on disk, so the surrounding program computes the forms — the candidate
//! path's (the parent canonicalized and the leaf appended when the path does
//! not yet exist, nothing when even that fails) and each allowlist entry's
//! (the entry as written when it has none) — and hands them here as plain
//! values.  The decision over those forms is verified: non-empty list,
//! resolvable path, and some entry's form a prefix of the path's.

use vstd::prelude::*;
use vstd::string::*;

use crate::text::eq_chars;
use crate::text::is_prefix_chars;
use crate::text::split_char_seq;
use crate::text::str_to_chars;
use crate::text::subrange_chars;

verus! {

// ── Command names ───────────────────────────────────────────────────────────

/// The last path component that names anything: empty and `.` segments are
/// skipped from the right.
pub open spec fn last_component(segs: Seq<Seq<char>>) -> Option<Seq<char>>
    decreases segs.len(),
{
    if segs.len() == 0 {
        None
    } else if segs.last().len() == 0 || segs.last() == "."@ {
        last_component(segs.drop_last())
    } else {
        Some(segs.last())
    }
}

/// The trailing basename of a command string: its last real path component.
/// Where that leaves nothing usable (no component at all, or `..`), the
/// command itself stands in.
pub open spec fn basename_of(s: Seq<char>) -> Seq<char> {
    match last_component(split_char_seq(s, '/')) {
        None => s,
        Some(seg) => if seg == ".."@ {
            s
        } else {
            seg
        },
    }
}

/// Does the allowlist entry admit the command, by exact or basename match?
pub open spec fn command_entry_matches(entry: Seq<char>, c: Seq<char>) -> bool {
    entry == c || entry == basename_of(c)
}

/// A command is allowed iff the command list is non-empty and some entry
/// equals the command or its trailing basename.
pub open spec fn command_allowed(c: Seq<char>, cmds: Seq<Seq<char>>) -> bool {
    &&& cmds.len() > 0
    &&& exists|i: int| 0 <= i < cmds.len() && #[trigger] command_entry_matches(cmds[i], c)
}

/// The trailing basename of the command held in `v`.
fn basename_chars(v: &Vec<char>) -> (b: Vec<char>)
    ensures
        b@ == basename_of(v@),
{
    proof {
        reveal_strlit(".");
        reveal_strlit("..");
    }
    let segs = crate::text::split_on_char(v, '/');
    let ghost full = segs.deep_view();
    let mut j: usize = segs.len();
    proof {
        assert(full.take(j as int) =~= full);
    }
    while j > 0
        invariant
            j <= segs@.len(),
            full == segs.deep_view(),
            full == split_char_seq(v@, '/'),
            last_component(full) == last_component(full.take(j as int)),
        decreases j,
    {
        let seg = &segs[j - 1];
        let m = seg.len();
        proof {
            reveal_strlit(".");
            reveal_strlit("..");
            assert(full.take(j as int).last() == full[j - 1]);
            assert(full[j - 1] == segs@[j - 1]@);
            assert(full.take(j as int).drop_last() =~= full.take(j - 1));
        }
        let skip_seg = m == 0 || (m == 1 && seg[0] == '.');
        if !skip_seg {
            proof {
                assert(seg@.len() > 0);
                assert(seg@ != "."@) by {
                    if seg@ =~= "."@ {
                        assert(seg@.len() == 1 && seg@[0] == '.');
                    }
                }
                assert(last_component(full) == Some(seg@));
            }
            if m == 2 && seg[0] == '.' && seg[1] == '.' {
                proof {
                    assert(seg@ =~= ".."@);
                }
                return subrange_chars(v, 0, v.len());
            }
            proof {
                assert(seg@ != ".."@) by {
                    if seg@ =~= ".."@ {
                        assert(seg@.len() == 2 && seg@[0] == '.' && seg@[1] == '.');
                    }
                }
            }
            return subrange_chars(seg, 0, m);
        }
        proof {
            if m == 0 {
                assert(seg@.len() == 0);
            } else {
                assert(seg@ =~= "."@);
            }
        }
        j = j - 1;
    }
    proof {
        assert(full.take(0) =~= Seq::<Seq<char>>::empty());
    }
    subrange_chars(v, 0, v.len())
}

// ── Resolved path checks ────────────────────────────────────────────────────

/// The canonical form handed in, as a character sequence.
pub open spec fn opt_str_view(o: Option<&String>) -> Option<Seq<char>> {
    match o {
        Some(s) => Some(s@),
        None => None,
    }
}

/// A path is allowed iff the allowlist is non-empty, the path resolved to a
/// canonical form, and some entry's form is a prefix of it.
pub open spec fn resolved_allowed(
    canon: Option<Seq<char>>,
    entry_forms: Seq<Seq<char>>,
    list_len: int,
) -> bool {
    &&& list_len > 0
    &&& canon is Some
    &&& exists|i: int|
        0 <= i < entry_forms.len() && (#[trigger] entry_forms[i]).is_prefix_of(canon.unwrap())
}

/// The reason string a denied path check carries: empty list, unresolvable
/// path, or no matching prefix, in that order.
pub open spec fn resolved_denied_reason(
    path: Seq<char>,
    canon: Option<Seq<char>>,
    list_len: int,
    op: Seq<char>,
) -> Seq<char> {
    if list_len <= 0 {
        "no "@ + op + " paths are allowed"@
    } else if canon is None {
        "cannot resolve path '"@ + path + "'"@
    } else {
        op + " access denied for path '"@ + path + "'"@
    }
}

/// The reason string a denied command check carries.
pub open spec fn command_denied_reason(c: Seq<char>, cmds: Seq<Seq<char>>) -> Seq<char> {
    if cmds.len() == 0 {
        "no commands are allowed"@
    } else {
        "command '"@ + c + "' not in allowlist"@
    }
}

// ── The checker ─────────────────────────────────────────────────────────────

/// Outcome of a capability check: allowed, or denied with a reason.
pub enum CapabilityResult {
    Allowed,
    Denied(String),
}

/// Immutable authorization policy: path prefixes a tool may read, path
/// prefixes it may write, and command names it may run.
pub struct CapabilityChecker {
    pub allowed_read_paths: Vec<String>,
    pub allowed_write_paths: Vec<String>,
    pub allowed_commands: Vec<String>,
}

impl CapabilityChecker {
    pub fn new(
        allowed_read_paths: Vec<String>,
        allowed_write_paths: Vec<String>,
        allowed_commands: Vec<String>,
    ) -> (r: CapabilityChecker)
        ensures
            r.allowed_read_paths == allowed_read_paths,
            r.allowed_write_paths == allowed_write_paths,
            r.allowed_commands == allowed_commands,
    {
        CapabilityChecker { allowed_read_paths, allowed_write_paths, allowed_commands }
    }

    /// May a tool read beneath `path`?  `canon` is the path's canonical
    /// form, `canon_entries` the read allowlist's forms, both resolved by
    /// the caller.  Allowed exactly when the read allowlist is non-empty,
    /// the path resolved, and some entry's form prefixes the path's.
    pub fn check_file_read(&self, path: &str, canon: Option<&String>, canon_entries: &Vec<String>)
        -> (r: CapabilityResult)
        ensures
            ({
                let ll = self.allowed_read_paths@.len() as int;
                match r {
                    CapabilityResult::Allowed => resolved_allowed(
                        opt_str_view(canon),
                        canon_entries.deep_view(),
                        ll,
                    ),
                    CapabilityResult::Denied(reason) => !resolved_allowed(
                        opt_str_view(canon),
                        canon_entries.deep_view(),
                        ll,
                    ) && reason@ == resolved_denied_reason(path@, opt_str_view(canon), ll, "read"@),
                }
            }),
    {
        check_path_resolved(path, self.allowed_read_paths.len(), canon, canon_entries, "read")
    }

    /// May a tool write beneath `path`?  The same discipline as reading,
    /// against the write allowlist's forms.
    pub fn check_file_write(&self, path: &str, canon: Option<&String>, canon_entries: &Vec<String>)
        -> (r: CapabilityResult)
        ensures
            ({
                let ll = self.allowed_write_paths@.len() as int;
                match r {
                    CapabilityResult::Allowed => resolved_allowed(
                        opt_str_view(canon),
                        canon_entries.deep_view(),
                        ll,
                    ),
                    CapabilityResult::Denied(reason) => !resolved_allowed(
                        opt_str_view(canon),
                        canon_entries.deep_view(),
                        ll,
                    ) && reason@ == resolved_denied_reason(
                        path@,
                        opt_str_view(canon),
                        ll,
                        "write"@,
                    ),
                }
            }),
    {
        check_path_resolved(path, self.allowed_write_paths.len(), canon, canon_entries, "write")
    }

    /// May a tool run `command`?  Allowed exactly when the command list is
    /// non-empty and holds the command or its trailing basename.
    pub fn check_command(&self, command: &str) -> (r: CapabilityResult)
        ensures
            match r {
                CapabilityResult::Allowed => command_allowed(
                    command@,
                    self.allowed_commands.deep_view(),
                ),
                CapabilityResult::Denied(reason) => !command_allowed(
                    command@,
                    self.allowed_commands.deep_view(),
                ) && reason@ == command_denied_reason(
                    command@,
                    self.allowed_commands.deep_view(),
                ),
            },
    {
        let ghost cmds = self.allowed_commands.deep_view();
        if self.allowed_commands.len() == 0 {
            return CapabilityResult::Denied(String::from_str("no commands are allowed"));
        }
        let chars = str_to_chars(command);
        let base = basename_chars(&chars);
        let n = self.allowed_commands.len();
        let mut i: usize = 0;
        while i < n
            invariant
                i <= n,
                n == cmds.len(),
                cmds == self.allowed_commands.deep_view(),
                chars@ == command@,
                base@ == basename_of(command@),
                forall|j: int| 0 <= j < i ==> !command_entry_matches(cmds[j], command@),
            decreases n - i,
        {
            let entry = str_to_chars(self.allowed_commands[i].as_str());
            proof {
                assert(cmds[i as int] == self.allowed_commands@[i as int]@);
            }
            if eq_chars(&entry, &chars) || eq_chars(&entry, &base) {
                proof {
                    assert(command_entry_matches(cmds[i as int], command@));
                }
                return CapabilityResult::Allowed;
            }
            i = i + 1;
        }
        CapabilityResult::Denied(
            String::from_str("command '").concat(command).concat("' not in allowlist"),
        )
    }
}

/// Shared path discipline for the read and write checks, over the canonical
/// forms the caller resolved.
fn check_path_resolved(
    path: &str,
    list_len: usize,
    canon: Option<&String>,
    canon_entries: &Vec<String>,
    op: &str,
) -> (r: CapabilityResult)
    ensures
        match r {
            CapabilityResult::Allowed => resolved_allowed(
                opt_str_view(canon),
                canon_entries.deep_view(),
                list_len as int,
            ),
            CapabilityResult::Denied(reason) => !resolved_allowed(
                opt_str_view(canon),
                canon_entries.deep_view(),
                list_len as int,
            ) && reason@ == resolved_denied_reason(
                path@,
                opt_str_view(canon),
                list_len as int,
                op@,
            ),
        },
{
    if list_len == 0 {
        return CapabilityResult::Denied(
            String::from_str("no ").concat(op).concat(" paths are allowed"),
        );
    }
    let c = match canon {
        Some(c) => c,
        None => {
            return CapabilityResult::Denied(
                String::from_str("cannot resolve path '").concat(path).concat("'"),
            );
        },
    };
    let ghost forms = canon_entries.deep_view();
    let cpath = str_to_chars(c.as_str());
    let n = canon_entries.len();
    let mut i: usize = 0;
    while i < n
        invariant
            i <= n,
            n == forms.len(),
            forms == canon_entries.deep_view(),
            cpath@ == c@,
            opt_str_view(canon) == Some(c@),
            list_len > 0,
            forall|j: int| 0 <= j < i ==> !(#[trigger] forms[j]).is_prefix_of(c@),
        decreases n - i,
    {
        proof {
            assert(forms[i as int] == canon_entries@[i as int]@);
        }
        let entry = str_to_chars(canon_entries[i].as_str());
        if is_prefix_chars(&entry, &cpath) {
            proof {
                assert(forms[i as int].is_prefix_of(opt_str_view(canon).unwrap()));
            }
            return CapabilityResult::Allowed;
        }
        i = i + 1;
    }
    CapabilityResult::Denied(
        String::from_str(op).concat(" access denied for path '").concat(path).concat("'"),
    )
}

// ── Properties of the denial reasons ────────────────────────────────────────

/// A denied path check never carries an empty reason.
pub proof fn lemma_path_denied_reason_nonempty(
    path: Seq<char>,
    canon: Option<Seq<char>>,
    list_len: int,
    op: Seq<char>,
)
    ensures
        resolved_denied_reason(path, canon, list_len, op).len() > 0,
{
    reveal_strlit("no ");
    reveal_strlit("cannot resolve path '");
    if list_len <= 0 {
        assert(("no "@ + op + " paths are allowed"@).len() >= "no "@.len());
    } else if canon is None {
        assert(("cannot resolve path '"@ + path + "'"@).len() >= "cannot resolve path '"@.len());
    } else {
        reveal_strlit(" access denied for path '");
        assert((op + " access denied for path '"@ + path + "'"@).len()
            >= " access denied for path '"@.len());
    }
}

/// A denied command check never carries an empty reason.
pub proof fn lemma_command_denied_reason_nonempty(c: Seq<char>, cmds: Seq<Seq<char>>)
    ensures
        command_denied_reason(c, cmds).len() > 0,
{
    reveal_strlit("no commands are allowed");
    reveal_strlit("command '");
    if cmds.len() == 0 {
    } else {
        assert(("command '"@ + c + "' not in allowlist"@).len() >= "command '"@.len());
    }
}

} // verus!
