//! The kernel sandbox's contents: the seccomp-BPF program and the Landlock
//! rule plan.  Installing them takes raw system calls, which the
//! surrounding program performs; what is installed is decided and built
//! here, instruction by instruction and rule by rule.

use vstd::prelude::*;
use vstd::string::*;

verus! {

/// How installing the two sandbox layers went; either may be unavailable,
/// and execution then continues on the application-level checks alone.
pub struct SandboxResult {
    pub seccomp_applied: bool,
    pub landlock_applied: bool,
    pub seccomp_error: Option<String>,
    pub landlock_error: Option<String>,
}

// ── seccomp-BPF ─────────────────────────────────────────────────────────────

/// One classic BPF instruction.
pub struct SockFilter {
    pub code: u16,
    pub jt: u8,
    pub jf: u8,
    pub k: u32,
}

/// `ld [abs]` of a 32-bit word.
pub const BPF_LD_W_ABS: u16 = 0x20;

/// `jeq #k, jt, jf`.
pub const BPF_JMP_JEQ_K: u16 = 0x15;

/// `ret #k`.
pub const BPF_RET_K: u16 = 0x06;

/// Return action: allow the call.
pub const SECCOMP_RET_ALLOW: u32 = 0x7fff0000;

/// Return action: deny the call with `EPERM`, so that misbehaviour surfaces
/// as an ordinary errno.
pub const SECCOMP_RET_ERRNO_EPERM: u32 = 0x00050001;

/// Offset of the syscall number in `seccomp_data`.
pub const SECCOMP_DATA_NR: u32 = 0;

/// Offset of the architecture tag in `seccomp_data`.
pub const SECCOMP_DATA_ARCH: u32 = 4;

/// The architecture this filter is compiled for.
pub const AUDIT_ARCH_X86_64: u32 = 0xC000003E;

/// The instruction at position `i` of the filter for the allowlist
/// `allowed`: check the architecture, load the syscall number, compare it
/// against each allowed number jumping to the final allow on a match, and
/// deny with `EPERM` otherwise.
pub open spec fn seccomp_instr(allowed: Seq<u32>, i: int) -> SockFilter {
    let n = allowed.len() as int;
    if i == 0 {
        SockFilter { code: BPF_LD_W_ABS, jt: 0, jf: 0, k: SECCOMP_DATA_ARCH }
    } else if i == 1 {
        SockFilter { code: BPF_JMP_JEQ_K, jt: 1, jf: 0, k: AUDIT_ARCH_X86_64 }
    } else if i == 2 {
        SockFilter { code: BPF_RET_K, jt: 0, jf: 0, k: SECCOMP_RET_ERRNO_EPERM }
    } else if i == 3 {
        SockFilter { code: BPF_LD_W_ABS, jt: 0, jf: 0, k: SECCOMP_DATA_NR }
    } else if 4 <= i < 4 + n {
        SockFilter { code: BPF_JMP_JEQ_K, jt: (n - (i - 4)) as u8, jf: 0, k: allowed[i - 4] }
    } else if i == 4 + n {
        SockFilter { code: BPF_RET_K, jt: 0, jf: 0, k: SECCOMP_RET_ERRNO_EPERM }
    } else {
        SockFilter { code: BPF_RET_K, jt: 0, jf: 0, k: SECCOMP_RET_ALLOW }
    }
}

/// The whole filter program for an allowlist.
pub open spec fn seccomp_filter_spec(allowed: Seq<u32>) -> Seq<SockFilter> {
    Seq::new(allowed.len() + 6, |i: int| seccomp_instr(allowed, i))
}

/// The syscall numbers (x86-64) the agent is permitted: file I/O, memory,
/// signals, sockets, process control for the run-command tool, timers, and
/// the usual process bookkeeping.
pub fn allowed_syscalls() -> (r: Vec<u32>)
    ensures
        r@ == allowed_syscalls_spec(),
{
    let r: Vec<u32> = vec![
        0, 1, 2, 3, 4, 5, 6, 7, 8, 9, 10, 11, 12, 13, 14, 16, 17, 18, 19, 20, 21, 24, 28, 32, 33,
        35, 39, 41, 42, 44, 45, 46, 47, 49, 54, 55, 56, 59, 60, 61, 62, 72, 78, 79, 80, 89, 96,
        97, 102, 104, 107, 108, 110, 131, 137, 157, 158, 202, 217, 218, 228, 230, 231, 233, 234,
        257, 262, 270, 271, 273, 281, 288, 291, 292, 293, 302, 309, 318, 332, 334, 435, 439,
    ];
    proof {
        assert(r@ =~= allowed_syscalls_spec());
    }
    r
}

/// The allowlisted syscall numbers, as a sequence.
pub open spec fn allowed_syscalls_spec() -> Seq<u32> {
    seq![
        0u32, 1, 2, 3, 4, 5, 6, 7, 8, 9, 10, 11, 12, 13, 14, 16, 17, 18, 19, 20, 21, 24, 28, 32,
        33, 35, 39, 41, 42, 44, 45, 46, 47, 49, 54, 55, 56, 59, 60, 61, 62, 72, 78, 79, 80, 89,
        96, 97, 102, 104, 107, 108, 110, 131, 137, 157, 158, 202, 217, 218, 228, 230, 231, 233,
        234, 257, 262, 270, 271, 273, 281, 288, 291, 292, 293, 302, 309, 318, 332, 334, 435, 439,
    ]
}

/// Build the seccomp filter program over the built-in allowlist.
pub fn build_seccomp_filter() -> (r: Vec<SockFilter>)
    ensures
        r@ == seccomp_filter_spec(allowed_syscalls_spec()),
        r@.len() == allowed_syscalls_spec().len() + 6,
{
    let allowed = allowed_syscalls();
    let n = allowed.len();
    proof {
        assert(n <= 250);
    }
    let mut r: Vec<SockFilter> = Vec::new();
    r.push(SockFilter { code: BPF_LD_W_ABS, jt: 0, jf: 0, k: SECCOMP_DATA_ARCH });
    r.push(SockFilter { code: BPF_JMP_JEQ_K, jt: 1, jf: 0, k: AUDIT_ARCH_X86_64 });
    r.push(SockFilter { code: BPF_RET_K, jt: 0, jf: 0, k: SECCOMP_RET_ERRNO_EPERM });
    r.push(SockFilter { code: BPF_LD_W_ABS, jt: 0, jf: 0, k: SECCOMP_DATA_NR });
    let mut i: usize = 0;
    while i < n
        invariant
            i <= n,
            n == allowed@.len(),
            n <= 250,
            allowed@ == allowed_syscalls_spec(),
            r@.len() == i + 4,
            forall|j: int|
                0 <= j < i + 4 ==> r@[j] == seccomp_instr(allowed_syscalls_spec(), j),
        decreases n - i,
    {
        let remaining = n - i - 1;
        r.push(
            SockFilter { code: BPF_JMP_JEQ_K, jt: (remaining + 1) as u8, jf: 0, k: allowed[i] },
        );
        i = i + 1;
    }
    r.push(SockFilter { code: BPF_RET_K, jt: 0, jf: 0, k: SECCOMP_RET_ERRNO_EPERM });
    r.push(SockFilter { code: BPF_RET_K, jt: 0, jf: 0, k: SECCOMP_RET_ALLOW });
    proof {
        assert(r@ =~= seccomp_filter_spec(allowed_syscalls_spec()));
    }
    r
}

// ── Landlock ────────────────────────────────────────────────────────────────

pub const LANDLOCK_ACCESS_FS_EXECUTE: u64 = 1;

pub const LANDLOCK_ACCESS_FS_WRITE_FILE: u64 = 2;

pub const LANDLOCK_ACCESS_FS_READ_FILE: u64 = 4;

pub const LANDLOCK_ACCESS_FS_READ_DIR: u64 = 8;

pub const LANDLOCK_ACCESS_FS_REMOVE_DIR: u64 = 16;

pub const LANDLOCK_ACCESS_FS_REMOVE_FILE: u64 = 32;

pub const LANDLOCK_ACCESS_FS_MAKE_DIR: u64 = 128;

pub const LANDLOCK_ACCESS_FS_MAKE_REG: u64 = 256;

/// Read a file or list a directory.
pub const LANDLOCK_READ_ALL: u64 = 12;

/// Write, remove and create files and directories.
pub const LANDLOCK_WRITE_ALL: u64 = 434;

/// Every file-access right of the first Landlock ABI: the ruleset handles
/// them all, so anything not granted below is denied.
pub const LANDLOCK_ALL_V1: u64 = 8191;

/// One path-beneath rule to install.
pub struct LandlockRule {
    pub path: String,
    pub access: u64,
}

pub open spec fn rule_model(rs: Seq<LandlockRule>) -> Seq<(Seq<char>, u64)> {
    Seq::new(rs.len(), |i: int| (rs[i].path@, rs[i].access))
}

/// The rules of the configured allowlists alone: reads for each read path,
/// reads and writes for each write path.
pub open spec fn policy_rules(reads: Seq<Seq<char>>, writes: Seq<Seq<char>>) -> Seq<
    (Seq<char>, u64),
> {
    Seq::new(reads.len(), |i: int| (reads[i], LANDLOCK_READ_ALL)) + Seq::new(
        writes.len(),
        |i: int| (writes[i], LANDLOCK_READ_ALL | LANDLOCK_WRITE_ALL),
    )
}

/// The ambient rules every run needs: resolver and trust stores readable,
/// system libraries readable, standard binary directories executable, and
/// a writable temporary directory.
pub open spec fn ambient_rules() -> Seq<(Seq<char>, u64)> {
    seq![
        ("/etc/resolv.conf"@, LANDLOCK_READ_ALL),
        ("/etc/hosts"@, LANDLOCK_READ_ALL),
        ("/etc/ssl"@, LANDLOCK_READ_ALL),
        ("/etc/ca-certificates"@, LANDLOCK_READ_ALL),
        ("/usr/share/ca-certificates"@, LANDLOCK_READ_ALL),
        ("/usr/lib"@, LANDLOCK_READ_ALL),
        ("/lib"@, LANDLOCK_READ_ALL),
        ("/lib64"@, LANDLOCK_READ_ALL),
        ("/proc/self"@, LANDLOCK_READ_ALL),
        ("/usr/bin"@, LANDLOCK_READ_ALL | LANDLOCK_ACCESS_FS_EXECUTE),
        ("/usr/local/bin"@, LANDLOCK_READ_ALL | LANDLOCK_ACCESS_FS_EXECUTE),
        ("/bin"@, LANDLOCK_READ_ALL | LANDLOCK_ACCESS_FS_EXECUTE),
        ("/usr/sbin"@, LANDLOCK_READ_ALL | LANDLOCK_ACCESS_FS_EXECUTE),
        ("/tmp"@, LANDLOCK_READ_ALL | LANDLOCK_WRITE_ALL),
    ]
}

/// Plan the path-beneath rules for a ruleset: the configured read and write
/// allowlists first, then the ambient system paths.  Installation skips
/// paths that do not exist.
pub fn landlock_rule_plan(read_paths: &Vec<String>, write_paths: &Vec<String>) -> (r: Vec<
    LandlockRule,
>)
    ensures
        rule_model(r@) == policy_rules(read_paths.deep_view(), write_paths.deep_view())
            + ambient_rules(),
{
    let ghost reads = read_paths.deep_view();
    let ghost writes = write_paths.deep_view();
    let ghost rrules = Seq::new(reads.len(), |t: int| (reads[t], LANDLOCK_READ_ALL));
    let ghost wrules = Seq::new(
        writes.len(),
        |t: int| (writes[t], LANDLOCK_READ_ALL | LANDLOCK_WRITE_ALL),
    );
    let mut r: Vec<LandlockRule> = Vec::new();
    let nr = read_paths.len();
    let mut i: usize = 0;
    proof {
        assert(rule_model(r@) =~= rrules.take(0));
    }
    while i < nr
        invariant
            i <= nr,
            nr == read_paths@.len(),
            reads == read_paths.deep_view(),
            rrules == Seq::new(reads.len(), |t: int| (reads[t], LANDLOCK_READ_ALL)),
            rule_model(r@) == rrules.take(i as int),
        decreases nr - i,
    {
        let ghost prev = r@;
        proof {
            assert(rule_model(prev).len() == prev.len());
            assert(rule_model(prev) == rrules.take(i as int));
            assert(rrules.len() == reads.len());
            assert(prev.len() == i);
        }
        r.push(LandlockRule { path: read_paths[i].clone(), access: LANDLOCK_READ_ALL });
        proof {
            assert(r@.len() == i + 1);
            assert forall|t: int| 0 <= t <= i implies rule_model(r@)[t] == rrules.take(i + 1)[t]
                by {
                if t < i {
                    assert(r@[t] == prev[t]);
                    assert(rule_model(prev)[t] == rrules.take(i as int)[t]);
                } else {
                    assert(r@[t].path@ == read_paths@[i as int]@);
                    assert(reads[t] == read_paths@[i as int]@);
                    assert(rrules[t] == (reads[t], LANDLOCK_READ_ALL));
                }
            }
            assert(rule_model(r@) =~= rrules.take(i + 1));
        }
        i = i + 1;
    }
    proof {
        assert(rrules.take(nr as int) =~= rrules);
    }
    let nw = write_paths.len();
    let mut j: usize = 0;
    proof {
        assert(rule_model(r@) + wrules.take(0) =~= rule_model(r@));
    }
    while j < nw
        invariant
            j <= nw,
            nw == write_paths@.len(),
            writes == write_paths.deep_view(),
            rrules == Seq::new(reads.len(), |t: int| (reads[t], LANDLOCK_READ_ALL)),
            wrules == Seq::new(
                writes.len(),
                |t: int| (writes[t], LANDLOCK_READ_ALL | LANDLOCK_WRITE_ALL),
            ),
            rule_model(r@) == rrules + wrules.take(j as int),
        decreases nw - j,
    {
        let ghost prev = r@;
        proof {
            assert(rule_model(prev).len() == prev.len());
            assert(rule_model(prev) == rrules + wrules.take(j as int));
            assert(rrules.len() == reads.len());
            assert(wrules.len() == writes.len());
            assert(prev.len() == rrules.len() + j);
        }
        r.push(
            LandlockRule {
                path: write_paths[j].clone(),
                access: LANDLOCK_READ_ALL | LANDLOCK_WRITE_ALL,
            },
        );
        proof {
            assert(r@.len() == rrules.len() + j + 1);
            assert forall|t: int| 0 <= t < r@.len() implies rule_model(r@)[t] == (rrules
                + wrules.take(j + 1))[t] by {
                if t < prev.len() {
                    assert(r@[t] == prev[t]);
                    assert(rule_model(prev)[t] == (rrules + wrules.take(j as int))[t]);
                } else {
                    assert(r@[t].path@ == write_paths@[j as int]@);
                    assert(writes[t - rrules.len()] == write_paths@[j as int]@);
                    assert(wrules[t - rrules.len()] == (
                        writes[t - rrules.len()],
                        LANDLOCK_READ_ALL | LANDLOCK_WRITE_ALL,
                    ));
                }
            }
            assert(rule_model(r@) =~= rrules + wrules.take(j + 1));
        }
        j = j + 1;
    }
    proof {
        assert(wrules.take(nw as int) =~= wrules);
        assert(rrules + wrules =~= policy_rules(reads, writes));
    }
    push_ambient(&mut r);
    r
}

/// Append the ambient rules.
fn push_ambient(r: &mut Vec<LandlockRule>)
    ensures
        rule_model(final(r)@) == rule_model(old(r)@) + ambient_rules(),
{
    let ghost pre = rule_model(r@);
    r.push(LandlockRule { path: String::from_str("/etc/resolv.conf"), access: LANDLOCK_READ_ALL });
    r.push(LandlockRule { path: String::from_str("/etc/hosts"), access: LANDLOCK_READ_ALL });
    r.push(LandlockRule { path: String::from_str("/etc/ssl"), access: LANDLOCK_READ_ALL });
    r.push(
        LandlockRule { path: String::from_str("/etc/ca-certificates"), access: LANDLOCK_READ_ALL },
    );
    r.push(
        LandlockRule {
            path: String::from_str("/usr/share/ca-certificates"),
            access: LANDLOCK_READ_ALL,
        },
    );
    r.push(LandlockRule { path: String::from_str("/usr/lib"), access: LANDLOCK_READ_ALL });
    r.push(LandlockRule { path: String::from_str("/lib"), access: LANDLOCK_READ_ALL });
    r.push(LandlockRule { path: String::from_str("/lib64"), access: LANDLOCK_READ_ALL });
    r.push(LandlockRule { path: String::from_str("/proc/self"), access: LANDLOCK_READ_ALL });
    r.push(
        LandlockRule {
            path: String::from_str("/usr/bin"),
            access: LANDLOCK_READ_ALL | LANDLOCK_ACCESS_FS_EXECUTE,
        },
    );
    r.push(
        LandlockRule {
            path: String::from_str("/usr/local/bin"),
            access: LANDLOCK_READ_ALL | LANDLOCK_ACCESS_FS_EXECUTE,
        },
    );
    r.push(
        LandlockRule {
            path: String::from_str("/bin"),
            access: LANDLOCK_READ_ALL | LANDLOCK_ACCESS_FS_EXECUTE,
        },
    );
    r.push(
        LandlockRule {
            path: String::from_str("/usr/sbin"),
            access: LANDLOCK_READ_ALL | LANDLOCK_ACCESS_FS_EXECUTE,
        },
    );
    r.push(
        LandlockRule {
            path: String::from_str("/tmp"),
            access: LANDLOCK_READ_ALL | LANDLOCK_WRITE_ALL,
        },
    );
    proof {
        assert(rule_model(r@) =~= pre + ambient_rules());
    }
}

} // verus!
