//! Platform-neutral types for the operating-system services the agent
//! consumes, and the pure pieces of the syscall-backed platform: the
//! lexical path canonicalizer and dotted-quad address parsing.  The
//! syscalls themselves live in the surrounding program.

use vstd::prelude::*;
use vstd::string::*;

use crate::num::dec_u64;
use crate::text::chars_to_string;
use crate::text::find_char;
use crate::text::lemma_find_char;
use crate::text::split_char_seq;
use crate::text::str_to_chars;

verus! {

// ── Lexical canonical form ──────────────────────────────────────────────────
//
// The syscall-level target has no symlinks, so its canonical form is purely
// lexical: `.` and `..` segments resolved, repeated slashes collapsed,
// absolute paths only, traversal above the root refused.

/// One canonicalization step: fold a path segment into the stack of resolved
/// segments.  Empty and `.` segments vanish, `..` pops (failing at the root),
/// anything else is pushed.
pub open spec fn seg_apply(stack: Seq<Seq<char>>, seg: Seq<char>) -> Option<Seq<Seq<char>>> {
    if seg.len() == 0 || seg == "."@ {
        Some(stack)
    } else if seg == ".."@ {
        if stack.len() == 0 {
            None
        } else {
            Some(stack.drop_last())
        }
    } else {
        Some(stack.push(seg))
    }
}

/// Resolve the remaining path text (everything after the leading slash)
/// against an already-resolved stack of segments.
pub open spec fn resolve_from(stack: Seq<Seq<char>>, rest: Seq<char>) -> Option<Seq<Seq<char>>>
    decreases rest.len(),
{
    let i = find_char(rest, '/');
    if 0 <= i < rest.len() {
        match seg_apply(stack, rest.take(i)) {
            Some(st) => resolve_from(st, rest.skip(i + 1)),
            None => None,
        }
    } else {
        seg_apply(stack, rest)
    }
}

/// `/a/b/c` from the segment stack `[a, b, c]`.
pub open spec fn join_parts(parts: Seq<Seq<char>>) -> Seq<char>
    decreases parts.len(),
{
    if parts.len() == 0 {
        Seq::empty()
    } else {
        join_parts(parts.drop_last()) + "/"@ + parts.last()
    }
}

/// The canonical form of a path: defined for absolute paths that do not
/// traverse above the root.
pub open spec fn canon_path(path: Seq<char>) -> Option<Seq<char>> {
    if path.len() == 0 || path[0] != '/' {
        None
    } else {
        match resolve_from(Seq::empty(), path.skip(1)) {
            None => None,
            Some(parts) => Some(
                if parts.len() == 0 {
                    "/"@
                } else {
                    join_parts(parts)
                },
            ),
        }
    }
}

// ── Executable canonicalizer ────────────────────────────────────────────────

/// Canonicalize an absolute path lexically.
pub fn canonicalize_path(path: &str) -> (r: Option<String>)
    ensures
        match r {
            Some(c) => canon_path(path@) == Some(c@),
            None => canon_path(path@) is None,
        },
{
    let chars = str_to_chars(path);
    let n = chars.len();
    if n == 0 || chars[0] != '/' {
        return None;
    }
    let ghost whole: Seq<char> = chars@.skip(1);
    let mut stack: Vec<Vec<char>> = Vec::new();
    let mut seg: Vec<char> = Vec::new();
    let mut i: usize = 1;
    proof {
        assert(stack.deep_view() =~= Seq::<Seq<char>>::empty());
        assert(seg@ =~= chars@.subrange(1, 1));
    }
    while i < n
        invariant
            1 <= i <= n,
            n == chars@.len(),
            chars@ == path@,
            chars@[0] == '/',
            whole == chars@.skip(1),
            seg@.len() <= i - 1,
            seg@ == chars@.subrange(i - seg@.len(), i as int),
            forall|k: int| 0 <= k < seg@.len() ==> seg@[k] != '/',
            resolve_from(Seq::empty(), whole) == resolve_from(
                stack.deep_view(),
                chars@.skip(i - seg@.len()),
            ),
        decreases n - i,
    {
        let c = chars[i];
        if c == '/' {
            let ghost rest = chars@.skip(i - seg@.len());
            let ghost pre_stack = stack.deep_view();
            proof {
                lemma_find_char(rest, '/');
                assert(rest[seg@.len() as int] == '/');
                assert(forall|k: int| 0 <= k < seg@.len() ==> rest[k] == seg@[k]);
                assert(find_char(rest, '/') == seg@.len());
                assert(rest.take(seg@.len() as int) =~= seg@);
                assert(rest.skip(seg@.len() as int + 1) =~= chars@.skip(i + 1));
            }
            let ok = apply_segment(&mut stack, seg);
            if !ok {
                proof {
                    assert(resolve_from(pre_stack, rest) is None);
                    assert(resolve_from(Seq::empty(), path@.skip(1)) is None);
                }
                return None;
            }
            proof {
                assert(resolve_from(Seq::empty(), whole) == resolve_from(
                    stack.deep_view(),
                    chars@.skip(i + 1),
                ));
            }
            seg = Vec::new();
            proof {
                assert(seg@ =~= chars@.subrange(i + 1, i + 1));
            }
        } else {
            seg.push(c);
            proof {
                assert(seg@ =~= chars@.subrange(i + 1 - seg@.len(), i + 1));
            }
        }
        i = i + 1;
    }
    let ghost rest = chars@.skip(i - seg@.len());
    let ghost pre_stack = stack.deep_view();
    proof {
        lemma_find_char(rest, '/');
        assert(rest =~= seg@);
        assert(find_char(rest, '/') < 0);
    }
    let ok = apply_segment(&mut stack, seg);
    if !ok {
        proof {
            assert(resolve_from(pre_stack, rest) is None);
            assert(canon_path(path@) is None);
        }
        return None;
    }
    proof {
        assert(resolve_from(Seq::empty(), whole) == Some(stack.deep_view()));
    }
    let mut out: Vec<char> = Vec::new();
    let m = stack.len();
    if m == 0 {
        out.push('/');
        proof {
            reveal_strlit("/");
            assert(out@ =~= "/"@);
        }
        return Some(chars_to_string(&out));
    }
    let mut j: usize = 0;
    proof {
        assert(stack.deep_view().take(0) =~= Seq::<Seq<char>>::empty());
        assert(out@ =~= join_parts(stack.deep_view().take(0)));
    }
    while j < m
        invariant
            j <= m,
            m == stack@.len(),
            out@ == join_parts(stack.deep_view().take(j as int)),
        decreases m - j,
    {
        out.push('/');
        proof {
            reveal_strlit("/");
            assert(stack@[j as int]@.take(0) =~= Seq::<char>::empty());
            assert(out@ =~= join_parts(stack.deep_view().take(j as int)) + "/"@
                + stack@[j as int]@.take(0));
        }
        let mut k: usize = 0;
        let part_len = stack[j].len();
        while k < part_len
            invariant
                k <= part_len,
                j < m,
                m == stack@.len(),
                part_len == stack@[j as int]@.len(),
                out@ == join_parts(stack.deep_view().take(j as int)) + "/"@
                    + stack@[j as int]@.take(k as int),
            decreases part_len - k,
        {
            let c = stack[j][k];
            out.push(c);
            proof {
                reveal_strlit("/");
                assert(out@ =~= join_parts(stack.deep_view().take(j as int)) + "/"@
                    + stack@[j as int]@.take(k + 1));
            }
            k = k + 1;
        }
        proof {
            reveal_strlit("/");
            let pre = stack.deep_view().take(j as int);
            let post = stack.deep_view().take(j + 1);
            assert(post.drop_last() =~= pre);
            assert(post.last() =~= stack@[j as int]@);
            assert(stack@[j as int]@.take(part_len as int) =~= stack@[j as int]@);
            assert(out@ =~= join_parts(post));
        }
        j = j + 1;
    }
    proof {
        assert(stack.deep_view().take(m as int) =~= stack.deep_view());
    }
    Some(chars_to_string(&out))
}

/// Fold one segment into the resolved stack; false means the path climbed
/// above the root.
fn apply_segment(stack: &mut Vec<Vec<char>>, seg: Vec<char>) -> (ok: bool)
    ensures
        match seg_apply(old(stack).deep_view(), seg@) {
            Some(st) => ok && final(stack).deep_view() == st,
            None => !ok,
        },
{
    proof {
        reveal_strlit(".");
        reveal_strlit("..");
    }
    if seg.len() == 0 {
        return true;
    }
    if seg.len() == 1 && seg[0] == '.' {
        proof {
            assert(seg@ =~= "."@);
        }
        return true;
    }
    if seg.len() == 2 && seg[0] == '.' && seg[1] == '.' {
        proof {
            assert(seg@ =~= ".."@);
        }
        if stack.len() == 0 {
            return false;
        }
        let _ = stack.pop();
        proof {
            assert(stack.deep_view() =~~= old(stack).deep_view().drop_last());
        }
        return true;
    }
    proof {
        assert(seg@ != "."@ && seg@ != ".."@);
    }
    stack.push(seg);
    proof {
        assert(stack.deep_view() =~~= old(stack).deep_view().push(seg@));
    }
    true
}


/// One directory entry.
pub struct DirEntry {
    pub name: String,
    pub is_dir: bool,
}

/// A finished command's captured output.
pub struct CommandOutput {
    pub stdout: String,
    pub stderr: String,
    pub exit_code: i32,
}

/// The classes of action a capability can authorize.
pub enum CapType {
    FileRead,
    FileWrite,
    Command,
    Network,
}

/// Error from a platform operation.
#[derive(Debug)]
pub enum PlatformError {
    Io(String),
    PermissionDenied(String),
    NotFound(String),
    Timeout(String),
    NotSupported(String),
}

/// The syscall-level platform of a capability-kernel target: its file,
/// process and socket operations go through raw kernel calls in the
/// surrounding program; the path and address arithmetic stands here.
pub struct LuperiqPlatform;

impl LuperiqPlatform {
    pub fn new() -> (r: LuperiqPlatform) {
        LuperiqPlatform
    }

    /// Resolve `.` and `..` lexically: the target has no symlinks.  A
    /// relative path or one that climbs above the root is refused.
    pub fn canonicalize(&self, path: &str) -> (r: Result<String, PlatformError>)
        ensures
            match r {
                Ok(c) => canon_path(path@) == Some(c@),
                Err(e) => canon_path(path@) is None && e is NotFound,
            },
    {
        let chars = crate::text::str_to_chars(path);
        if chars.len() == 0 || chars[0] != '/' {
            return Err(
                PlatformError::NotFound(
                    String::from_str("path must be absolute: '").concat(path).concat("'"),
                ),
            );
        }
        match canonicalize_path(path) {
            Some(c) => Ok(c),
            None => Err(PlatformError::NotFound(String::from_str("path traverses above root"))),
        }
    }
}

/// A dotted-quad address packed into an integer, byte by byte.
pub open spec fn packed_ip(host: Seq<char>) -> Option<u64> {
    let parts = split_char_seq(host, '.');
    if parts.len() == 4 {
        match (dec_u64(parts[0]), dec_u64(parts[1]), dec_u64(parts[2]), dec_u64(parts[3])) {
            (Some(a), Some(b), Some(c), Some(d)) => if a <= 255 && b <= 255 && c <= 255 && d
                <= 255 {
                Some((a * 0x1000000 + b * 0x10000 + c * 0x100 + d) as u64)
            } else {
                None
            },
            _ => None,
        }
    } else {
        None
    }
}

/// Parse a dotted-quad address; name resolution is not available on the
/// syscall-level platform.
pub fn parse_ip_or_resolve(host: &str) -> (r: Result<u64, PlatformError>)
    ensures
        match r {
            Ok(p) => packed_ip(host@) == Some(p),
            Err(e) => packed_ip(host@) is None && e is NotSupported,
        },
{
    let chars = crate::text::str_to_chars(host);
    let parts = crate::text::split_on_char(&chars, '.');
    if parts.len() == 4 {
        proof {
            assert(parts.deep_view()[0] == parts@[0]@);
            assert(parts.deep_view()[1] == parts@[1]@);
            assert(parts.deep_view()[2] == parts@[2]@);
            assert(parts.deep_view()[3] == parts@[3]@);
        }
        let a = crate::num::parse_u64_chars(&parts[0]);
        let b = crate::num::parse_u64_chars(&parts[1]);
        let c = crate::num::parse_u64_chars(&parts[2]);
        let d = crate::num::parse_u64_chars(&parts[3]);
        match (a, b, c, d) {
            (Some(a), Some(b), Some(c), Some(d)) => {
                if a <= 255 && b <= 255 && c <= 255 && d <= 255 {
                    return Ok(a * 0x1000000 + b * 0x10000 + c * 0x100 + d);
                }
                Err(
                    PlatformError::NotSupported(
                        String::from_str("DNS resolution not yet implemented for '").concat(
                            host,
                        ).concat("'"),
                    ),
                )
            },
            _ => Err(
                PlatformError::NotSupported(
                    String::from_str("DNS resolution not yet implemented for '").concat(
                        host,
                    ).concat("'"),
                ),
            ),
        }
    } else {
        Err(
            PlatformError::NotSupported(
                String::from_str("DNS resolution not yet implemented for '").concat(host).concat(
                    "'",
                ),
            ),
        )
    }
}

/// What one entry reads as in a listing: its name, a slash appended for a
/// directory.
pub open spec fn entry_line(e: DirEntry) -> Seq<char> {
    if e.is_dir {
        e.name@ + "/"@
    } else {
        e.name@
    }
}

/// The lines of a listing, in the entries' order.
pub open spec fn listing_lines(es: Seq<DirEntry>) -> Seq<Seq<char>> {
    Seq::new(es.len(), |i: int| entry_line(es[i]))
}

/// Render a directory listing: one line per entry, directories suffixed
/// with `/`, sorted, joined with newlines.
pub fn render_directory_listing(entries: &Vec<DirEntry>) -> (r: String)
    ensures
        exists|lines: Seq<Seq<char>>|
            {
                &&& r@ == #[trigger] crate::text::join_lines(lines)
                &&& crate::text::sorted_strs(lines)
                &&& lines.to_multiset() == listing_lines(entries@).to_multiset()
            },
{
    let n = entries.len();
    let mut lines: Vec<Vec<char>> = Vec::new();
    let mut i: usize = 0;
    proof {
        assert(lines.deep_view() =~= listing_lines(entries@).take(0));
    }
    while i < n
        invariant
            i <= n,
            n == entries@.len(),
            lines.deep_view() == listing_lines(entries@).take(i as int),
        decreases n - i,
    {
        let e = &entries[i];
        let mut line = str_to_chars(e.name.as_str());
        if e.is_dir {
            line.push('/');
            proof {
                reveal_strlit("/");
                assert(line@ =~= entries@[i as int].name@ + "/"@);
            }
        }
        let ghost pre = lines.deep_view();
        let ghost lv = line@;
        lines.push(line);
        proof {
            assert(lines.deep_view() =~~= pre.push(lv));
            assert(lines.deep_view() =~= listing_lines(entries@).take(i + 1));
        }
        i = i + 1;
    }
    proof {
        assert(listing_lines(entries@).take(n as int) =~= listing_lines(entries@));
    }
    let sorted = crate::text::sort_lines(lines);
    let m = sorted.len();
    let mut parts: Vec<String> = Vec::new();
    let mut k: usize = 0;
    proof {
        assert(parts.deep_view() =~= sorted.deep_view().take(0));
    }
    while k < m
        invariant
            k <= m,
            m == sorted@.len(),
            parts.deep_view() == sorted.deep_view().take(k as int),
        decreases m - k,
    {
        let ghost pre = parts.deep_view();
        parts.push(chars_to_string(&sorted[k]));
        proof {
            assert(parts.deep_view() =~~= pre.push(sorted.deep_view()[k as int]));
            assert(parts.deep_view() =~= sorted.deep_view().take(k + 1));
        }
        k = k + 1;
    }
    proof {
        assert(sorted.deep_view().take(m as int) =~= sorted.deep_view());
    }
    let r = crate::text::join_string_parts(&parts);
    proof {
        assert(r@ == crate::text::join_lines(sorted.deep_view()));
    }
    r
}

} // verus!
