//! The registry.
//!
//! A [`PubSub`] owns the client table and the two subscription tables
//! (literal and pattern) and enforces their invariants. Callers register
//! clients, subscribe identifiers to channel names, and publish payloads;
//! the registry computes the deduplicated delivery set and invokes each
//! selected client's capability once, in ascending identifier order.

use core::marker::PhantomData;
use std::collections::HashMap;

use vstd::prelude::*;

use crate::errors::PubSubError;
use crate::matcher::channel_is_pattern;
use crate::matcher::channel_is_pattern_spec;
use crate::matcher::glob_matches;
use crate::store::ChannelEntry;
use crate::store::collect_delivery;
use crate::store::has_channel;
use crate::store::pattern_subs;
use crate::store::sorted_unique;
use crate::store::subs_of;
use crate::store::table_purge;
use crate::store::table_subscribe;
use crate::store::table_unsubscribe;
use crate::store::table_wf;

verus! {

broadcast use vstd::std_specs::hash::group_hash_axioms;

/// The capability the registry requires from a client: a stable, unique
/// identifier and acceptance of a message.
///
/// The identifier must stay the same for the lifetime of the
/// registration; the registry keys its client table by it. Uniqueness
/// across live clients is the caller's responsibility and is enforced by
/// the registry only in the last-write-wins sense of [`PubSub::add_client`].
pub trait Client<TMessage>: Sized {
    /// The identifier of the client, as contracts speak of it.
    spec fn id_spec(&self) -> u64;

    /// Gets the identifier of the client.
    fn get_id(&self) -> (r: u64)
        ensures
            r == self.id_spec(),
    ;

    /// Accepts a delivered message. Failures are the client's own
    /// responsibility: the registry neither inspects nor propagates them.
    fn send(&self, message: TMessage);
}

/// An in-process publish/subscribe registry.
///
/// The registry is a single-owner, single-threaded data structure: all
/// operations run to completion without yielding, and concurrent use
/// requires external synchronization.
pub struct PubSub<TClient, TMessage> {
    /// The registered clients, keyed by identifier.
    pub clients: HashMap<u64, TClient>,
    /// The literal-channel subscription table.
    pub channels: Vec<ChannelEntry>,
    /// The pattern-channel subscription table.
    pub pattern_channels: Vec<ChannelEntry>,
    /// Marks the message type the registry's clients receive.
    pub phantom: PhantomData<TMessage>,
}

impl<TClient, TMessage> PubSub<TClient, TMessage> {
    /// The literal-channel table, as a sequence of entries.
    pub open spec fn lit_table(&self) -> Seq<ChannelEntry> {
        self.channels@
    }

    /// The pattern-channel table, as a sequence of entries.
    pub open spec fn pat_table(&self) -> Seq<ChannelEntry> {
        self.pattern_channels@
    }

    /// Well-formedness: both tables are well formed, the literal table
    /// holds no pattern name, and the pattern table holds only pattern
    /// names.
    pub open spec fn wf(&self) -> bool {
        &&& table_wf(self.channels@)
        &&& table_wf(self.pattern_channels@)
        &&& forall|k: int|
            0 <= k < self.channels@.len() ==> !channel_is_pattern_spec(
                (#[trigger] self.channels@[k].name)@,
            )
        &&& forall|k: int|
            0 <= k < self.pattern_channels@.len() ==> channel_is_pattern_spec(
                (#[trigger] self.pattern_channels@[k].name)@,
            )
    }

    /// The set of identifiers subscribed to the channel named `name`, in
    /// the table its classification selects.
    pub open spec fn subs(&self, name: Seq<char>) -> Set<u64> {
        if channel_is_pattern_spec(name) {
            subs_of(self.pattern_channels@, name)
        } else {
            subs_of(self.channels@, name)
        }
    }

    /// Whether a subscriber set (possibly empty) was ever created for
    /// `name` in the table its classification selects.
    pub open spec fn channel_known(&self, name: Seq<char>) -> bool {
        if channel_is_pattern_spec(name) {
            has_channel(self.pattern_channels@, name)
        } else {
            has_channel(self.channels@, name)
        }
    }

    /// The delivery set of a publication to `channel`: the literal
    /// subscribers of exactly that name, together with the subscribers of
    /// every pattern that matches it.
    pub open spec fn delivery_set(&self, channel: Seq<char>) -> Set<u64> {
        subs_of(self.channels@, channel).union(pattern_subs(self.pattern_channels@, channel))
    }

    /// How a successful subscription of `id` to `name` changes a registry.
    pub open spec fn sub_applied(pre: Self, post: Self, name: Seq<char>, id: u64) -> bool {
        &&& post.clients@ == pre.clients@
        &&& post.channel_known(name)
        &&& post.subs(name) == pre.subs(name).insert(id)
        &&& forall|n: Seq<char>| n != name ==> post.subs(n) == pre.subs(n)
        &&& forall|n: Seq<char>| n != name ==> post.channel_known(n) == pre.channel_known(n)
    }

    /// How a successful unsubscription of `id` from `name` changes a
    /// registry.
    pub open spec fn unsub_applied(pre: Self, post: Self, name: Seq<char>, id: u64) -> bool {
        &&& post.clients@ == pre.clients@
        &&& post.subs(name) == pre.subs(name).remove(id)
        &&& forall|n: Seq<char>| post.channel_known(n) == pre.channel_known(n)
        &&& forall|n: Seq<char>| n != name ==> post.subs(n) == pre.subs(n)
    }

    /// How removing the client identified by `id` changes a registry: the
    /// client record is gone and `id` stands in no subscriber set and no
    /// delivery set any more.
    pub open spec fn remove_applied(pre: Self, post: Self, id: u64) -> bool {
        &&& post.clients@ == pre.clients@.remove(id)
        &&& forall|n: Seq<char>| post.channel_known(n) == pre.channel_known(n)
        &&& forall|n: Seq<char>| post.subs(n) == pre.subs(n).remove(id)
        &&& forall|ch: Seq<char>| post.delivery_set(ch) == pre.delivery_set(ch).remove(id)
    }
}

impl<TClient: Client<TMessage>, TMessage: Clone + Copy> PubSub<TClient, TMessage> {
    /// Creates a new, empty registry. All clients of one registry use the
    /// same identifier type and receive the same type of message.
    pub fn new() -> (r: PubSub<TClient, TMessage>)
        ensures
            r.wf(),
            r.clients@ == Map::<u64, TClient>::empty(),
            r.lit_table() == Seq::<ChannelEntry>::empty(),
            r.pat_table() == Seq::<ChannelEntry>::empty(),
    {
        PubSub {
            clients: HashMap::new(),
            channels: Vec::new(),
            pattern_channels: Vec::new(),
            phantom: PhantomData,
        }
    }

    /// Adds a client, keyed by its identifier. Re-adding an identifier
    /// silently replaces the previous client record (last-write-wins);
    /// existing subscriptions of the identifier stay.
    pub fn add_client(&mut self, client: TClient)
        requires
            old(self).wf(),
        ensures
            final(self).wf(),
            final(self).clients@ == old(self).clients@.insert(client.id_spec(), client),
            final(self).lit_table() == old(self).lit_table(),
            final(self).pat_table() == old(self).pat_table(),
    {
        let token = client.get_id();
        self.clients.insert(token, client);
    }

    /// Unsubscribes a client from every channel and removes it from the
    /// registry, leaving no dangling subscription. Removing an absent
    /// client is a no-op, not an error.
    pub fn remove_client(&mut self, client: TClient)
        requires
            old(self).wf(),
        ensures
            final(self).wf(),
            Self::remove_applied(*old(self), *final(self), client.id_spec()),
    {
        let identifier = client.get_id();
        self.clients.remove(&identifier);
        table_purge(&mut self.channels, identifier);
        table_purge(&mut self.pattern_channels, identifier);
        proof {
            let pre = *old(self);
            let post = *self;
            assert forall|n: Seq<char>| post.channel_known(n) == pre.channel_known(n) by {}
            assert forall|n: Seq<char>| post.subs(n) == pre.subs(n).remove(identifier) by {}
            assert forall|ch: Seq<char>| post.delivery_set(ch) == pre.delivery_set(ch).remove(
                identifier,
            ) by {
                assert forall|y: u64|
                    pattern_subs(post.pattern_channels@, ch).contains(y) implies (pattern_subs(
                    pre.pattern_channels@,
                    ch,
                ).contains(y) && y != identifier) by {
                    let a = choose|a: int|
                        0 <= a < post.pattern_channels@.len() && glob_matches(
                            (#[trigger] post.pattern_channels@[a].name)@,
                            ch,
                        ) && post.pattern_channels@[a].subs@.contains(y);
                    assert(pre.pattern_channels@[a].subs@.contains(y) && y != identifier);
                    assert(glob_matches(pre.pattern_channels@[a].name@, ch));
                }
                assert forall|y: u64|
                    pattern_subs(pre.pattern_channels@, ch).contains(y) && y != identifier implies
                    pattern_subs(post.pattern_channels@, ch).contains(y) by {
                    let a = choose|a: int|
                        0 <= a < pre.pattern_channels@.len() && glob_matches(
                            (#[trigger] pre.pattern_channels@[a].name)@,
                            ch,
                        ) && pre.pattern_channels@[a].subs@.contains(y);
                    assert(post.pattern_channels@[a].subs@.contains(y));
                    assert(glob_matches(post.pattern_channels@[a].name@, ch));
                }
                assert(pattern_subs(post.pattern_channels@, ch) =~= pattern_subs(
                    pre.pattern_channels@,
                    ch,
                ).remove(identifier));
                assert(post.delivery_set(ch) =~= pre.delivery_set(ch).remove(identifier));
            }
        }
    }

    /// Subscribes a client to a channel. The channel name is classified
    /// at this moment: a name holding `*` or `?` subscribes to the
    /// pattern table, any other name to the literal table. Fails with
    /// [`PubSubError::ClientAlreadySubscribedError`], leaving the
    /// registry unchanged, when the identifier is already subscribed to
    /// the channel.
    pub fn sub_client(&mut self, client: TClient, channel: &str) -> (r: Result<(), PubSubError>)
        requires
            old(self).wf(),
        ensures
            final(self).wf(),
            r is Ok <==> !old(self).subs(channel@).contains(client.id_spec()),
            r is Ok ==> Self::sub_applied(*old(self), *final(self), channel@, client.id_spec()),
            r is Err ==> *final(self) == *old(self) && r == Err::<(), PubSubError>(
                PubSubError::ClientAlreadySubscribedError,
            ),
    {
        let identifier = client.get_id();
        let name = channel.to_owned();
        let result = if channel_is_pattern(channel) {
            table_subscribe(&mut self.pattern_channels, &name, identifier)
        } else {
            table_subscribe(&mut self.channels, &name, identifier)
        };
        proof {
            let pre = *old(self);
            let post = *self;
            if result is Ok {
                assert forall|n: Seq<char>| n != channel@ implies post.subs(n) == pre.subs(n) by {}
                assert forall|n: Seq<char>|
                    n != channel@ implies post.channel_known(n) == pre.channel_known(n) by {}
            }
        }
        result
    }

    /// Unsubscribes a client from a channel, keyed by the channel name
    /// itself under the same classification as [`PubSub::sub_client`]
    /// (unsubscribing from a pattern uses the pattern string as the key,
    /// not the names it matches). Fails, leaving the registry unchanged,
    /// with [`PubSubError::ChannelDoesNotExistError`] when no subscriber
    /// set was ever created for the name, and with
    /// [`PubSubError::ClientNotSubscribedError`] when the identifier is
    /// not in the existing set.
    pub fn unsub_client(&mut self, client: TClient, channel: &str) -> (r: Result<(), PubSubError>)
        requires
            old(self).wf(),
        ensures
            final(self).wf(),
            r is Ok <==> (old(self).channel_known(channel@) && old(self).subs(channel@).contains(
                client.id_spec(),
            )),
            !old(self).channel_known(channel@) ==> r == Err::<(), PubSubError>(
                PubSubError::ChannelDoesNotExistError,
            ),
            old(self).channel_known(channel@) && !old(self).subs(channel@).contains(
                client.id_spec(),
            ) ==> r == Err::<(), PubSubError>(PubSubError::ClientNotSubscribedError),
            r is Err ==> *final(self) == *old(self),
            r is Ok ==> Self::unsub_applied(*old(self), *final(self), channel@, client.id_spec()),
    {
        let identifier = client.get_id();
        let name = channel.to_owned();
        let result = if channel_is_pattern(channel) {
            table_unsubscribe(&mut self.pattern_channels, &name, identifier)
        } else {
            table_unsubscribe(&mut self.channels, &name, identifier)
        };
        proof {
            let pre = *old(self);
            let post = *self;
            if result is Ok {
                assert forall|n: Seq<char>|
                    post.channel_known(n) == pre.channel_known(n) by {}
                assert forall|n: Seq<char>| n != channel@ implies post.subs(n) == pre.subs(n) by {}
            }
        }
        result
    }

    /// The identifiers a publication to `channel` would be delivered to:
    /// the union of the literal subscribers of exactly that name and the
    /// subscribers of every matching pattern, deduplicated, in ascending
    /// identifier order.
    pub fn delivery_list(&self, channel: &str) -> (r: Vec<u64>)
        requires
            self.wf(),
        ensures
            sorted_unique(r@),
            forall|y: u64| r@.contains(y) <==> self.delivery_set(channel@).contains(y),
    {
        let name = channel.to_owned();
        collect_delivery(&self.channels, &self.pattern_channels, &name)
    }

    /// Publishes a message to all clients subscribed to the channel,
    /// directly or through a matching pattern. The payload is converted
    /// into the registry's message type once; each unique, currently
    /// registered subscriber then receives the message exactly once, in
    /// ascending identifier order. Identifiers without a client record
    /// are silently skipped. Publishing changes the registry in no way
    /// and cannot fail: a channel without subscribers is a no-op.
    pub fn pub_message<TInputMessage: Into<TMessage>>(
        &mut self,
        channel: &str,
        msg: TInputMessage,
    )
        requires
            old(self).wf(),
        ensures
            *final(self) == *old(self),
    {
        let msg_ref: TMessage = msg.into();
        let ids = self.delivery_list(channel);
        let n = ids.len();
        let mut k: usize = 0;
        while k < n
            invariant
                n == ids@.len(),
                k <= n,
            decreases n - k,
        {
            let id = ids[k];
            match self.clients.get(&id) {
                Some(client) => client.send(msg_ref),
                None => (),
            }
            k = k + 1;
        }
    }
}

impl<TClient: Client<TMessage>, TMessage: Clone + Copy> Default for PubSub<TClient, TMessage> {
    /// An empty registry, as [`PubSub::new`] builds it.
    fn default() -> (r: Self)
        ensures
            r.wf(),
            r.clients@ == Map::<u64, TClient>::empty(),
            r.lit_table() == Seq::<ChannelEntry>::empty(),
            r.pat_table() == Seq::<ChannelEntry>::empty(),
    {
        Self::new()
    }
}

} // verus!
