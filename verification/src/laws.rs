//! Registry-wide laws.
//!
//! Each proof function here states, over the same spec functions the
//! operations' contracts use, a property that holds of every registry,
//! and is proved once and for all.

use vstd::prelude::*;

use crate::matcher::channel_is_pattern_spec;
use crate::matcher::glob_matches;
use crate::registry::PubSub;
use crate::store::ChannelEntry;
use crate::store::has_channel;
use crate::store::lemma_sorted_index;
use crate::store::pattern_subs;
use crate::store::sorted_unique;
use crate::store::subs_of;
use crate::store::table_wf;

verus! {

/// In a strictly ascending sequence every value stands at most once.
pub proof fn lemma_sorted_at_most_once(s: Seq<u64>, x: u64)
    requires
        sorted_unique(s),
    ensures
        forall|a: int, b: int|
            0 <= a < s.len() && 0 <= b < s.len() && s[a] == x && s[b] == x ==> a == b,
{
    assert forall|a: int, b: int|
        (0 <= a < s.len() && 0 <= b < s.len() && s[a] == x && s[b] == x) implies a == b by {
        if a < b {
            lemma_sorted_index(s, a, b);
        } else if b < a {
            lemma_sorted_index(s, b, a);
        }
    }
}

/// In a well-formed table, a subscriber identifier stands at most once in
/// any channel's subscriber vector: a subscription that succeeded left
/// exactly one entry for its client.
pub proof fn lemma_subscriber_at_most_once(t: Seq<ChannelEntry>, i: int, id: u64)
    requires
        table_wf(t),
        0 <= i < t.len(),
    ensures
        forall|a: int, b: int|
            0 <= a < t[i].subs@.len() && 0 <= b < t[i].subs@.len() && t[i].subs@[a] == id
                && t[i].subs@[b] == id ==> a == b,
{
    lemma_sorted_at_most_once(t[i].subs@, id);
}

/// Uniqueness of subscription: after a subscription of `id` to `name`
/// succeeds, `id` is in the subscriber set of `name` — so a second,
/// identical subscription must fail, since `sub_client` succeeds if and
/// only if the identifier is not yet subscribed.
pub proof fn lemma_subscription_unique<TClient, TMessage>(
    pre: PubSub<TClient, TMessage>,
    post: PubSub<TClient, TMessage>,
    name: Seq<char>,
    id: u64,
)
    requires
        pre.wf(),
        post.wf(),
        !pre.subs(name).contains(id),
        PubSub::sub_applied(pre, post, name, id),
    ensures
        post.subs(name).contains(id),
{
}

/// Symmetry of removal: once a client is removed, its identifier is in no
/// subscriber set and in no channel's delivery set — a publication to any
/// channel, literal or pattern-matched, no longer reaches it.
pub proof fn lemma_removed_client_receives_nothing<TClient, TMessage>(
    pre: PubSub<TClient, TMessage>,
    post: PubSub<TClient, TMessage>,
    id: u64,
    channel: Seq<char>,
)
    requires
        pre.wf(),
        post.wf(),
        PubSub::remove_applied(pre, post, id),
    ensures
        !post.delivery_set(channel).contains(id),
        !post.clients@.contains_key(id),
        forall|n: Seq<char>| !(#[trigger] post.subs(n)).contains(id),
{
    assert forall|n: Seq<char>| !(#[trigger] post.subs(n)).contains(id) by {
        assert(post.subs(n) == pre.subs(n).remove(id));
    }
    assert(post.delivery_set(channel) == pre.delivery_set(channel).remove(id));
}

/// Deduplicated delivery: a client subscribed both to the literal channel
/// and to a matching pattern is in the delivery list exactly once.
pub proof fn lemma_delivery_deduplicates<TClient, TMessage>(
    s: PubSub<TClient, TMessage>,
    channel: Seq<char>,
    pattern: Seq<char>,
    id: u64,
    ids: Seq<u64>,
)
    requires
        s.wf(),
        !channel_is_pattern_spec(channel),
        channel_is_pattern_spec(pattern),
        glob_matches(pattern, channel),
        s.subs(channel).contains(id),
        s.subs(pattern).contains(id),
        sorted_unique(ids),
        forall|y: u64| ids.contains(y) <==> s.delivery_set(channel).contains(y),
    ensures
        ids.contains(id),
        forall|a: int, b: int|
            0 <= a < ids.len() && 0 <= b < ids.len() && ids[a] == id && ids[b] == id ==> a == b,
{
    assert(s.delivery_set(channel).contains(id)) by {
        assert(subs_of(s.lit_table(), channel).contains(id));
    }
    assert(ids.contains(id));
    lemma_sorted_at_most_once(ids, id);
}

/// A publication to a channel that no literal subscription names and no
/// pattern subscription matches delivers to nobody: its delivery list is
/// empty.
pub proof fn lemma_unmatched_channel_delivers_nothing<TClient, TMessage>(
    s: PubSub<TClient, TMessage>,
    channel: Seq<char>,
    ids: Seq<u64>,
)
    requires
        s.wf(),
        !has_channel(s.lit_table(), channel),
        forall|k: int|
            0 <= k < s.pat_table().len() ==> !glob_matches(
                (#[trigger] s.pat_table()[k].name)@,
                channel,
            ),
        forall|y: u64| ids.contains(y) <==> s.delivery_set(channel).contains(y),
    ensures
        ids.len() == 0,
{
    assert forall|y: u64| !(#[trigger] s.delivery_set(channel).contains(y)) by {
        if subs_of(s.lit_table(), channel).contains(y) {
            let k = choose|k: int|
                0 <= k < s.lit_table().len() && (#[trigger] s.lit_table()[k].name)@ == channel
                    && s.lit_table()[k].subs@.contains(y);
            assert(has_channel(s.lit_table(), channel));
        }
        if pattern_subs(s.pat_table(), channel).contains(y) {
            let a = choose|a: int|
                0 <= a < s.pat_table().len() && glob_matches(
                    (#[trigger] s.pat_table()[a].name)@,
                    channel,
                ) && s.pat_table()[a].subs@.contains(y);
        }
    }
    if ids.len() > 0 {
        assert(ids.contains(ids[0]));
        assert(false);
    }
}

} // verus!
