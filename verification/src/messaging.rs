//! Messaging-platform types shared by every connector, and the chunking of
//! long outbound messages.

use vstd::prelude::*;

use crate::text::chars_to_string;
use crate::text::lemma_rfind_char_at;
use crate::text::lemma_rfind_char_none;
use crate::text::rfind_char;
use crate::text::str_to_chars;
use crate::text::subrange_chars;

verus! {

/// A message received from a messaging platform.
pub struct IncomingMessage {
    pub channel_id: String,
    pub user_id: String,
    pub username: Option<String>,
    pub text: String,
}

/// Error from a messaging connector.
pub enum ConnectorError {
    Http(crate::http::HttpError),
    Api(String),
    Json(String),
}

/// A messaging platform connector.  The library states no contracts here:
/// connectors perform network I/O and are implemented by the surrounding
/// program.
pub trait Connector {
    /// Poll for new messages; long-polling platforms honour `timeout_secs`.
    fn poll_messages(&mut self, timeout_secs: u32) -> Result<Vec<IncomingMessage>, ConnectorError>;

    /// Send a text message to a channel.
    fn send_message(&self, channel_id: &str, text: &str) -> Result<(), ConnectorError>;

    /// Send a message and return its platform-specific id, for later edits.
    fn send_message_get_id(&self, channel_id: &str, text: &str) -> Result<String, ConnectorError>;

    /// Edit an existing message's text.
    fn edit_message_text(&self, channel_id: &str, message_id: &str, text: &str) -> Result<
        (),
        ConnectorError,
    >;

    /// Platform tag for logging.
    fn platform_name(&self) -> &'static str;
}

/// One inbound chat message of the long-polling platform.
pub struct TelegramMessage {
    pub update_id: i64,
    pub chat_id: i64,
    pub from_id: i64,
    pub from_username: Option<String>,
    pub text: String,
}

/// Error from the long-polling platform's transport.
pub enum TelegramError {
    Http(crate::http::HttpError),
    Json(String),
    Api(String),
}

// ── Chunking ────────────────────────────────────────────────────────────────

/// The chunks a long text is sent as: each at most `max_len` characters,
/// split at the last newline inside the window where there is one, the
/// splitting newline dropped.
pub open spec fn split_chunks(text: Seq<char>, max_len: int) -> Seq<Seq<char>>
    decreases text.len(),
{
    if text.len() <= max_len || max_len < 1 {
        seq![text]
    } else {
        let cut = rfind_char(text.take(max_len), '\n');
        if cut >= 0 {
            let at = if cut < max_len {
                cut
            } else {
                max_len - 1
            };
            let rest = text.skip(at + 1);
            seq![text.take(at)] + (if rest.len() == 0 {
                Seq::empty()
            } else {
                split_chunks(rest, max_len)
            })
        } else {
            let rest0 = text.skip(max_len);
            let rest = if rest0[0] == '\n' {
                rest0.skip(1)
            } else {
                rest0
            };
            seq![text.take(max_len)] + (if rest.len() == 0 {
                Seq::empty()
            } else {
                split_chunks(rest, max_len)
            })
        }
    }
}

/// Split a message into chunks of at most `max_len` characters, preferring
/// line boundaries.
pub fn split_message(text: &str, max_len: usize) -> (r: Vec<String>)
    requires
        max_len >= 1,
    ensures
        r.deep_view() == split_chunks(text@, max_len as int),
{
    let chars = str_to_chars(text);
    let n = chars.len();
    let mut out: Vec<String> = Vec::new();
    let mut pos: usize = 0;
    proof {
        assert(chars@.skip(0) =~= chars@);
        assert(out.deep_view() + split_chunks(chars@, max_len as int) =~= split_chunks(
            chars@,
            max_len as int,
        ));
    }
    while n - pos > max_len
        invariant
            pos <= n,
            n == chars@.len(),
            chars@ == text@,
            max_len >= 1,
            split_chunks(text@, max_len as int) == out.deep_view() + split_chunks(
                chars@.skip(pos as int),
                max_len as int,
            ),
        decreases n - pos,
    {
        let ghost rem = chars@.skip(pos as int);
        // Look for the last newline in the window.
        let mut cut: usize = max_len;
        let mut found = false;
        let mut j: usize = max_len;
        while j > 0 && !found
            invariant
                j <= max_len,
                pos + max_len <= n,
                n == chars@.len(),
                rem == chars@.skip(pos as int),
                if found {
                    j < max_len && rem[j as int] == '\n' && cut == j && (forall|k: int|
                        j < k < max_len ==> rem[k] != '\n')
                } else {
                    cut == max_len && (forall|k: int| j <= k < max_len ==> rem[k] != '\n')
                },
            decreases j,
        {
            if chars[pos + j - 1] == '\n' {
                cut = j - 1;
                found = true;
            }
            j = j - 1;
        }
        let ghost window = rem.take(max_len as int);
        proof {
            assert(forall|k: int| 0 <= k < max_len ==> window[k] == rem[k]);
            if found {
                lemma_rfind_char_at(window, '\n', cut as int);
            } else {
                lemma_rfind_char_none(window, '\n');
            }
        }
        let chunk = subrange_chars(&chars, pos, pos + cut);
        proof {
            assert(chunk@ =~= rem.take(cut as int));
        }
        let ghost pre = out.deep_view();
        out.push(chars_to_string(&chunk));
        let next: usize = if pos + cut < n && chars[pos + cut] == '\n' {
            pos + cut + 1
        } else {
            pos + cut
        };
        proof {
            assert(out.deep_view() =~~= pre.push(chunk@));
            if found {
                assert(rem[cut as int] == '\n');
                assert(chars@[pos + cut] == rem[cut as int]);
                assert(next == pos + cut + 1);
                assert(rem.skip(cut as int + 1) =~= chars@.skip(next as int));
                assert(split_chunks(rem, max_len as int) == seq![rem.take(cut as int)] + (
                if chars@.skip(next as int).len() == 0 {
                    Seq::<Seq<char>>::empty()
                } else {
                    split_chunks(chars@.skip(next as int), max_len as int)
                }));
            } else {
                let rest0 = rem.skip(max_len as int);
                assert(rest0.len() > 0);
                assert(rest0[0] == rem[max_len as int] == chars@[pos + max_len]);
                if chars@[pos + cut] == '\n' {
                    assert(rest0.skip(1) =~= chars@.skip(next as int));
                } else {
                    assert(rest0 =~= chars@.skip(next as int));
                }
                assert(split_chunks(rem, max_len as int) == seq![rem.take(max_len as int)] + (
                if chars@.skip(next as int).len() == 0 {
                    Seq::<Seq<char>>::empty()
                } else {
                    split_chunks(chars@.skip(next as int), max_len as int)
                }));
            }
            if next == n {
                assert(out.deep_view() + Seq::<Seq<char>>::empty() =~= out.deep_view());
            }
        }
        pos = next;
        if pos == n {
            return out;
        }
    }
    // What remains fits in one chunk.
    let tail = subrange_chars(&chars, pos, n);
    proof {
        assert(tail@ =~= chars@.skip(pos as int));
        assert(split_chunks(chars@.skip(pos as int), max_len as int) =~= seq![
            chars@.skip(pos as int),
        ]);
    }
    let ghost pre = out.deep_view();
    out.push(chars_to_string(&tail));
    proof {
        assert(out.deep_view() =~~= pre.push(tail@));
        assert(out.deep_view() =~= pre + seq![tail@]);
    }
    out
}

} // verus!
