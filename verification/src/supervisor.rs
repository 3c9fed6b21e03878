//! The supervisor's decisions: authorizing inbound users, routing the
//! `/clear` sentinel, and the per-conversation history store.  Polling the
//! connectors and sleeping on errors stay in the surrounding program.

use vstd::prelude::*;
use vstd::string::*;

use crate::agent::history_wf;
use crate::agent::Message;
use crate::config::Config;
use crate::num::dec_i64_in_range;
use crate::text::eq_chars;
use crate::text::str_to_chars;
use crate::text::trim_chars;
use crate::text::trim_spec;

verus! {

// ── Authorization ───────────────────────────────────────────────────────────

/// Who may talk to the agent: on the one wired platform, everyone when the
/// allowlist is empty, else exactly the listed user ids.  Unknown platforms
/// admit nobody.
pub open spec fn authorized_spec(allowed: Seq<i64>, platform: Seq<char>, user_id: Seq<char>)
    -> bool {
    if platform == "telegram"@ {
        allowed.len() == 0 || (match dec_i64_in_range(user_id) {
            Some(v) => allowed.contains(v),
            None => false,
        })
    } else {
        false
    }
}

/// May this sender drive the agent?  The outcome is a pure function of the
/// configured allowlist, the platform tag and the sender's id: the same
/// inputs always decide the same way.
pub fn is_authorized(config: &Config, platform: &str, user_id: &str) -> (r: bool)
    ensures
        r == authorized_spec(config.telegram_allowed_users@, platform@, user_id@),
{
    let pf = str_to_chars(platform);
    if !eq_chars(&pf, &str_to_chars("telegram")) {
        return false;
    }
    if config.telegram_allowed_users.len() == 0 {
        return true;
    }
    let idc = str_to_chars(user_id);
    match crate::num::parse_i64_chars(&idc) {
        None => false,
        Some(v) => {
            let n = config.telegram_allowed_users.len();
            let mut i: usize = 0;
            while i < n
                invariant
                    i <= n,
                    n == config.telegram_allowed_users@.len(),
                    n > 0,
                    platform@ == "telegram"@,
                    dec_i64_in_range(user_id@) == Some(v),
                    forall|j: int| 0 <= j < i ==> config.telegram_allowed_users@[j] != v,
                decreases n - i,
            {
                if config.telegram_allowed_users[i] == v {
                    proof {
                        assert(config.telegram_allowed_users@.contains(v));
                    }
                    return true;
                }
                i = i + 1;
            }
            proof {
                assert(!config.telegram_allowed_users@.contains(v));
            }
            false
        },
    }
}

// ── Inbound routing ─────────────────────────────────────────────────────────

/// What the supervisor does with one inbound message.
pub enum InboundDirective {
    /// Audit the rejection and answer `Unauthorized.`.
    Unauthorized,
    /// Drop the conversation and acknowledge.
    ClearConversation,
    /// Append the text to the history and run an agent turn.
    RunTurn,
}

/// Route one inbound message: reject unauthorized senders, honour the
/// `/clear` sentinel, otherwise run a turn.
pub fn classify_inbound(config: &Config, platform: &str, user_id: &str, text: &str) -> (r:
    InboundDirective)
    ensures
        !authorized_spec(config.telegram_allowed_users@, platform@, user_id@) <==> r
            is Unauthorized,
        authorized_spec(config.telegram_allowed_users@, platform@, user_id@) && trim_spec(text@)
            == "/clear"@ ==> r is ClearConversation,
        authorized_spec(config.telegram_allowed_users@, platform@, user_id@) && trim_spec(text@)
            != "/clear"@ ==> r is RunTurn,
{
    if !is_authorized(config, platform, user_id) {
        return InboundDirective::Unauthorized;
    }
    let t = trim_chars(&str_to_chars(text));
    if eq_chars(&t, &str_to_chars("/clear")) {
        InboundDirective::ClearConversation
    } else {
        InboundDirective::RunTurn
    }
}

// ── Conversation store ──────────────────────────────────────────────────────

/// Per-conversation histories, keyed by `platform:channel-id`, each key
/// once.  Histories are owned here and never shared across conversations.
pub struct ConversationStore {
    pub convs: Vec<(String, Vec<Message>)>,
}

/// The history stored under `key`, if any.
pub open spec fn store_get(cs: Seq<(String, Vec<Message>)>, key: Seq<char>) -> Option<
    Seq<Message>,
>
    decreases cs.len(),
{
    if cs.len() == 0 {
        None
    } else if cs[0].0@ == key {
        Some(cs[0].1@)
    } else {
        store_get(cs.skip(1), key)
    }
}

/// The history an agent turn for `key` starts from: the stored one, or a
/// brand-new empty conversation.
pub open spec fn history_for(cs: Seq<(String, Vec<Message>)>, key: Seq<char>) -> Seq<Message> {
    match store_get(cs, key) {
        Some(h) => h,
        None => Seq::empty(),
    }
}

/// Every stored history is well formed, and every key is held once.
pub open spec fn store_wf(cs: Seq<(String, Vec<Message>)>) -> bool {
    &&& forall|i: int| 0 <= i < cs.len() ==> history_wf((#[trigger] cs[i]).1@)
    &&& forall|i: int, j: int|
        0 <= i < j < cs.len() ==> (#[trigger] cs[i].0@) != (#[trigger] cs[j].0@)
}

impl ConversationStore {
    pub fn new() -> (r: ConversationStore)
        ensures
            r.convs@.len() == 0,
            store_wf(r.convs@),
    {
        ConversationStore { convs: Vec::new() }
    }

    /// Remove the conversation under `key`: what `/clear` does.  The key
    /// afterwards reads as absent; every other key is untouched.
    #[verifier::rlimit(60)]
    pub fn clear(&mut self, key: &str)
        requires
            store_wf(old(self).convs@),
        ensures
            store_get(final(self).convs@, key@) is None,
            forall|k: Seq<char>|
                k != key@ ==> #[trigger] store_get(final(self).convs@, k) == store_get(
                    old(self).convs@,
                    k,
                ),
            store_wf(final(self).convs@),
    {
        let target = str_to_chars(key);
        let n = self.convs.len();
        let mut i: usize = 0;
        while i < n
            invariant
                i <= n,
                n == self.convs@.len(),
                self.convs@ == old(self).convs@,
                store_wf(self.convs@),
                target@ == key@,
                forall|j: int| 0 <= j < i ==> self.convs@[j].0@ != key@,
            decreases n - i,
        {
            let kc = str_to_chars(self.convs[i].0.as_str());
            if eq_chars(&kc, &target) {
                let ghost pre = self.convs@;
                let _ = self.convs.remove(i);
                proof {
                    assert(self.convs@ =~= pre.remove(i as int));
                    assert forall|j: int| 0 <= j < pre.len() && j != i implies pre[j].0@ != key@
                        by {}
                    lemma_store_remove(pre, key@, i as int);
                    assert forall|k: Seq<char>| k != key@ implies #[trigger] store_get(
                        self.convs@,
                        k,
                    ) == store_get(pre, k) by {
                        lemma_store_remove_other(pre, k, key@, i as int);
                    }
                    assert forall|a: int, b: int| 0 <= a < b < self.convs@.len() implies (
                    #[trigger] self.convs@[a].0@) != (#[trigger] self.convs@[b].0@) by {
                        let a0 = if a < i { a } else { a + 1 };
                        let b0 = if b < i { b } else { b + 1 };
                        assert(self.convs@[a] == pre[a0]);
                        assert(self.convs@[b] == pre[b0]);
                    }
                    assert forall|j: int| 0 <= j < self.convs@.len() implies history_wf(
                        (#[trigger] self.convs@[j]).1@,
                    ) by {
                        let j0 = if j < i { j } else { j + 1 };
                        assert(self.convs@[j] == pre[j0]);
                    }
                }
                return;
            }
            i = i + 1;
        }
        proof {
            lemma_store_absent(self.convs@, key@);
        }
    }

    /// Take the history under `key` out of the store, or an empty one for a
    /// new conversation.  Pair with `put` after the turn.
    #[verifier::rlimit(60)]
    pub fn take(&mut self, key: &str) -> (h: Vec<Message>)
        requires
            store_wf(old(self).convs@),
        ensures
            h@ == history_for(old(self).convs@, key@),
            history_wf(h@),
            store_get(final(self).convs@, key@) is None,
            forall|k: Seq<char>|
                k != key@ ==> #[trigger] store_get(final(self).convs@, k) == store_get(
                    old(self).convs@,
                    k,
                ),
            store_wf(final(self).convs@),
    {
        let target = str_to_chars(key);
        let n = self.convs.len();
        let mut i: usize = 0;
        while i < n
            invariant
                i <= n,
                n == self.convs@.len(),
                self.convs@ == old(self).convs@,
                store_wf(self.convs@),
                target@ == key@,
                forall|j: int| 0 <= j < i ==> self.convs@[j].0@ != key@,
            decreases n - i,
        {
            let kc = str_to_chars(self.convs[i].0.as_str());
            if eq_chars(&kc, &target) {
                let ghost pre = self.convs@;
                let entry = self.convs.remove(i);
                proof {
                    assert(self.convs@ =~= pre.remove(i as int));
                    assert forall|j: int| 0 <= j < pre.len() && j != i implies pre[j].0@ != key@
                        by {}
                    lemma_store_at(pre, key@, i as int);
                    lemma_store_remove(pre, key@, i as int);
                    assert forall|k: Seq<char>| k != key@ implies #[trigger] store_get(
                        self.convs@,
                        k,
                    ) == store_get(pre, k) by {
                        lemma_store_remove_other(pre, k, key@, i as int);
                    }
                    assert forall|a: int, b: int| 0 <= a < b < self.convs@.len() implies (
                    #[trigger] self.convs@[a].0@) != (#[trigger] self.convs@[b].0@) by {
                        let a0 = if a < i { a } else { a + 1 };
                        let b0 = if b < i { b } else { b + 1 };
                        assert(self.convs@[a] == pre[a0]);
                        assert(self.convs@[b] == pre[b0]);
                    }
                    assert forall|j: int| 0 <= j < self.convs@.len() implies history_wf(
                        (#[trigger] self.convs@[j]).1@,
                    ) by {
                        let j0 = if j < i { j } else { j + 1 };
                        assert(self.convs@[j] == pre[j0]);
                    }
                }
                return entry.1;
            }
            i = i + 1;
        }
        proof {
            lemma_store_absent(self.convs@, key@);
        }
        Vec::new()
    }

    /// Store the history under `key`.  The key must be absent, as `take`
    /// leaves it.
    #[verifier::rlimit(60)]
    pub fn put(&mut self, key: &str, h: Vec<Message>)
        requires
            store_wf(old(self).convs@),
            store_get(old(self).convs@, key@) is None,
            history_wf(h@),
        ensures
            store_get(final(self).convs@, key@) == Some(h@),
            forall|k: Seq<char>|
                k != key@ ==> #[trigger] store_get(final(self).convs@, k) == store_get(
                    old(self).convs@,
                    k,
                ),
            store_wf(final(self).convs@),
    {
        let ghost pre = self.convs@;
        let ghost hv = h@;
        self.convs.push((String::from_str(key), h));
        proof {
            lemma_store_push(pre, key@, hv, self.convs@.last());
            assert(self.convs@.drop_last() =~= pre);
            assert forall|k: Seq<char>| k != key@ implies #[trigger] store_get(self.convs@, k)
                == store_get(pre, k) by {
                lemma_store_push_other(pre, self.convs@, k, key@);
            }
            assert forall|a: int, b: int| 0 <= a < b < self.convs@.len() implies (
            #[trigger] self.convs@[a].0@) != (#[trigger] self.convs@[b].0@) by {
                if b == self.convs@.len() - 1 {
                    assert(self.convs@[a] == pre[a]);
                    if pre[a].0@ == key@ {
                        lemma_store_present(pre, key@, a);
                    }
                }
            }
        }
    }
}

/// A held key reads as present.
proof fn lemma_store_present(cs: Seq<(String, Vec<Message>)>, key: Seq<char>, i: int)
    requires
        0 <= i < cs.len(),
        cs[i].0@ == key,
    ensures
        store_get(cs, key) is Some,
    decreases i,
{
    if i > 0 && cs[0].0@ != key {
        lemma_store_present(cs.skip(1), key, i - 1);
    }
}

proof fn lemma_store_at(cs: Seq<(String, Vec<Message>)>, key: Seq<char>, i: int)
    requires
        0 <= i < cs.len(),
        cs[i].0@ == key,
        forall|j: int| 0 <= j < i ==> cs[j].0@ != key,
    ensures
        store_get(cs, key) == Some(cs[i].1@),
    decreases i,
{
    if i > 0 {
        lemma_store_at(cs.skip(1), key, i - 1);
    }
}

proof fn lemma_store_absent(cs: Seq<(String, Vec<Message>)>, key: Seq<char>)
    requires
        forall|j: int| 0 <= j < cs.len() ==> cs[j].0@ != key,
    ensures
        store_get(cs, key) is None,
    decreases cs.len(),
{
    if cs.len() > 0 {
        lemma_store_absent(cs.skip(1), key);
    }
}

proof fn lemma_store_remove(cs: Seq<(String, Vec<Message>)>, key: Seq<char>, i: int)
    requires
        0 <= i < cs.len(),
        cs[i].0@ == key,
        forall|j: int| 0 <= j < cs.len() && j != i ==> cs[j].0@ != key,
    ensures
        store_get(cs.remove(i), key) is None,
    decreases cs.len(),
{
    let w = cs.remove(i);
    assert forall|j: int| 0 <= j < w.len() implies w[j].0@ != key by {
        if j < i {
            assert(w[j] == cs[j]);
        } else {
            assert(w[j] == cs[j + 1]);
        }
    }
    lemma_store_absent(w, key);
}

proof fn lemma_store_remove_other(
    cs: Seq<(String, Vec<Message>)>,
    k: Seq<char>,
    key: Seq<char>,
    i: int,
)
    requires
        0 <= i < cs.len(),
        cs[i].0@ == key,
        k != key,
    ensures
        store_get(cs.remove(i), k) == store_get(cs, k),
    decreases i,
{
    if i == 0 {
        assert(cs.remove(0) =~= cs.skip(1));
    } else {
        lemma_store_remove_other(cs.skip(1), k, key, i - 1);
        assert(cs.remove(i).skip(1) =~= cs.skip(1).remove(i - 1));
        assert(cs.remove(i)[0] == cs[0]);
    }
}

proof fn lemma_store_push(
    cs: Seq<(String, Vec<Message>)>,
    key: Seq<char>,
    h: Seq<Message>,
    entry: (String, Vec<Message>),
)
    requires
        store_get(cs, key) is None,
        entry.0@ == key,
        entry.1@ == h,
    ensures
        store_get(cs.push(entry), key) == Some(h),
    decreases cs.len(),
{
    let w = cs.push(entry);
    if cs.len() == 0 {
        assert(w[0] == entry);
    } else {
        assert(w[0] == cs[0]);
        assert(cs[0].0@ != key);
        assert(w.skip(1) =~= cs.skip(1).push(entry));
        lemma_store_push(cs.skip(1), key, h, entry);
    }
}

proof fn lemma_store_push_other(
    cs: Seq<(String, Vec<Message>)>,
    w: Seq<(String, Vec<Message>)>,
    k: Seq<char>,
    key: Seq<char>,
)
    requires
        w.len() == cs.len() + 1,
        w.drop_last() == cs,
        w.last().0@ == key,
        k != key,
    ensures
        store_get(w, k) == store_get(cs, k),
    decreases cs.len(),
{
    if cs.len() == 0 {
        assert(w[0] == w.last());
    } else {
        assert(w[0] == cs[0]);
        assert(w.skip(1).drop_last() =~= cs.skip(1));
        assert(w.skip(1).last() == w.last());
        lemma_store_push_other(cs.skip(1), w.skip(1), k, key);
    }
}

/// Clearing a conversation resets it: the next message for that key starts
/// from the same history a brand-new conversation starts from — the empty
/// one.  So `/clear` followed by any message behaves exactly as the first
/// message of a fresh conversation.
pub proof fn lemma_clear_then_fresh(
    cs: Seq<(String, Vec<Message>)>,
    cleared: Seq<(String, Vec<Message>)>,
    key: Seq<char>,
)
    requires
        store_get(cleared, key) is None,
    ensures
        history_for(cleared, key) == history_for(Seq::<(String, Vec<Message>)>::empty(), key),
{
}

} // verus!
