//! The subscription store.
//!
//! A subscription table maps channel names to subscriber sets. It is kept
//! as a vector of entries with pairwise-distinct names; each entry holds
//! its subscribers as a strictly ascending vector of identifiers, so an
//! identifier stands at most once per channel and iteration is in
//! ascending identifier order.
//!
//! A channel entry is created lazily on first subscribe and never deleted,
//! even when its subscriber set becomes empty.

use vstd::prelude::*;

use crate::errors::PubSubError;
use crate::matcher::glob_matches;
use crate::matcher::pattern_matches;

verus! {

/// One channel of a subscription table: its name and the identifiers
/// subscribed to it, kept strictly ascending.
pub struct ChannelEntry {
    /// The channel name (a literal name in the literal table, a pattern in
    /// the pattern table).
    pub name: String,
    /// The subscribed identifiers, strictly ascending.
    pub subs: Vec<u64>,
}

/// Strictly ascending: each identifier stands at most once.
pub open spec fn sorted_unique(s: Seq<u64>) -> bool {
    forall|a: int, b: int| 0 <= a < b < s.len() ==> s[a] < s[b]
}

/// Well-formedness of a subscription table: channel names are pairwise
/// distinct and every subscriber vector is strictly ascending.
pub open spec fn table_wf(t: Seq<ChannelEntry>) -> bool {
    &&& forall|a: int, b: int|
        0 <= a < b < t.len() ==> (#[trigger] t[a].name)@ != (#[trigger] t[b].name)@
    &&& forall|a: int| 0 <= a < t.len() ==> sorted_unique((#[trigger] t[a].subs)@)
}

/// Whether a subscriber set (possibly empty) was ever created for `name`.
pub open spec fn has_channel(t: Seq<ChannelEntry>, name: Seq<char>) -> bool {
    exists|a: int| 0 <= a < t.len() && (#[trigger] t[a].name)@ == name
}

/// The set of identifiers subscribed to the channel named `name`
/// (empty when the channel was never created).
pub open spec fn subs_of(t: Seq<ChannelEntry>, name: Seq<char>) -> Set<u64> {
    Set::new(
        |id: u64|
            exists|a: int|
                0 <= a < t.len() && (#[trigger] t[a].name)@ == name && t[a].subs@.contains(id),
    )
}

/// The set of identifiers subscribed to some pattern of table `t` that
/// matches the published channel name `channel`.
pub open spec fn pattern_subs(t: Seq<ChannelEntry>, channel: Seq<char>) -> Set<u64> {
    Set::new(
        |id: u64|
            exists|a: int|
                0 <= a < t.len() && glob_matches((#[trigger] t[a].name)@, channel)
                    && t[a].subs@.contains(id),
    )
}

/// In a well-formed table, the subscriber set of a channel is exactly the
/// set held by the one entry that carries its name.
pub proof fn lemma_subs_at(t: Seq<ChannelEntry>, name: Seq<char>, i: int)
    requires
        table_wf(t),
        0 <= i < t.len(),
        t[i].name@ == name,
    ensures
        forall|id: u64| subs_of(t, name).contains(id) <==> t[i].subs@.contains(id),
{
    assert forall|id: u64| subs_of(t, name).contains(id) implies t[i].subs@.contains(id) by {
        let k = choose|k: int| 0 <= k < t.len() && t[k].name@ == name && t[k].subs@.contains(id);
        if k < i {
            assert(t[k].name@ != t[i].name@);
        } else if k > i {
            assert(t[i].name@ != t[k].name@);
        }
    }
    assert forall|id: u64| t[i].subs@.contains(id) implies subs_of(t, name).contains(id) by {
        assert(0 <= i < t.len() && t[i].name@ == name && t[i].subs@.contains(id));
    }
}

/// In a strictly ascending sequence, an earlier element is smaller.
pub proof fn lemma_sorted_index(s: Seq<u64>, a: int, b: int)
    requires
        sorted_unique(s),
        0 <= a < b < s.len(),
    ensures
        s[a] < s[b],
{
}

/// Looks a channel name up in a table: the index of its entry, or `None`
/// where no subscriber set was ever created for it.
pub(crate) fn find_channel(t: &Vec<ChannelEntry>, name: &String) -> (r: Option<usize>)
    ensures
        match r {
            Some(i) => i < t@.len() && t@[i as int].name@ == name@,
            None => !has_channel(t@, name@),
        },
{
    let mut i: usize = 0;
    while i < t.len()
        invariant
            i <= t@.len(),
            forall|j: int| 0 <= j < i ==> (#[trigger] t@[j].name)@ != name@,
        decreases t@.len() - i,
    {
        if t[i].name == *name {
            return Some(i);
        }
        i = i + 1;
    }
    None
}

/// Inserts `x` into a strictly ascending vector, keeping the order.
/// Returns `true` when `x` was newly inserted, `false` (leaving the
/// vector unchanged) when it was already present.
pub(crate) fn sorted_insert(v: &mut Vec<u64>, x: u64) -> (r: bool)
    requires
        sorted_unique(old(v)@),
    ensures
        sorted_unique(final(v)@),
        r == !old(v)@.contains(x),
        r ==> forall|y: u64| final(v)@.contains(y) <==> old(v)@.contains(y) || y == x,
        !r ==> *final(v) == *old(v),
{
    let mut i: usize = 0;
    while i < v.len() && v[i] < x
        invariant
            *v == *old(v),
            i <= v@.len(),
            forall|j: int| 0 <= j < i ==> v@[j] < x,
        decreases v@.len() - i,
    {
        i = i + 1;
    }
    if i < v.len() && v[i] == x {
        assert(old(v)@[i as int] == x);
        return false;
    }
    proof {
        assert forall|j: int| 0 <= j < v@.len() implies v@[j] != x by {
            if j >= i {
                assert(v@[i as int] <= v@[j]);
            }
        }
    }
    v.insert(i, x);
    proof {
        let pre = old(v)@;
        let post = v@;
        assert(forall|k: int| 0 <= k < i ==> post[k] == pre[k]);
        assert(post[i as int] == x);
        assert(forall|k: int| i < k < post.len() ==> post[k] == pre[k - 1]);
        assert forall|y: u64| post.contains(y) implies (pre.contains(y) || y == x) by {
            let k = choose|k: int| 0 <= k < post.len() && post[k] == y;
            if k < i {
                assert(pre[k] == y);
            } else if k > i {
                assert(pre[k - 1] == y);
            }
        }
        assert forall|y: u64| pre.contains(y) implies post.contains(y) by {
            let k = choose|k: int| 0 <= k < pre.len() && pre[k] == y;
            if k < i {
                assert(post[k] == y);
            } else {
                assert(post[k + 1] == y);
            }
        }
    }
    true
}

/// Removes `x` from a strictly ascending vector, keeping the order.
/// Returns `true` when `x` was present and removed, `false` (leaving the
/// vector unchanged) when it was absent.
pub(crate) fn sorted_remove(v: &mut Vec<u64>, x: u64) -> (r: bool)
    requires
        sorted_unique(old(v)@),
    ensures
        sorted_unique(final(v)@),
        r == old(v)@.contains(x),
        r ==> forall|y: u64| final(v)@.contains(y) <==> old(v)@.contains(y) && y != x,
        !r ==> *final(v) == *old(v),
{
    let mut i: usize = 0;
    while i < v.len()
        invariant
            *v == *old(v),
            sorted_unique(old(v)@),
            i <= v@.len(),
            forall|j: int| 0 <= j < i ==> v@[j] != x,
        decreases v@.len() - i,
    {
        if v[i] == x {
            proof {
                assert(old(v)@[i as int] == x);
            }
            v.remove(i);
            proof {
                let pre = old(v)@;
                let post = v@;
                assert(forall|k: int| 0 <= k < i ==> post[k] == pre[k]);
                assert(forall|k: int| i <= k < post.len() ==> post[k] == pre[k + 1]);
                assert forall|a: int, b: int| 0 <= a < b < post.len() implies post[a] < post[b] by {
                    if a < i && b < i {
                        lemma_sorted_index(pre, a, b);
                    } else if a < i {
                        lemma_sorted_index(pre, a, b + 1);
                    } else {
                        lemma_sorted_index(pre, a + 1, b + 1);
                    }
                }
                assert forall|y: u64| post.contains(y) implies (pre.contains(y) && y != x) by {
                    let k = choose|k: int| 0 <= k < post.len() && post[k] == y;
                    if k < i {
                        assert(pre[k] == y);
                    } else {
                        assert(pre[k + 1] == y);
                        lemma_sorted_index(pre, i as int, k + 1);
                    }
                }
                assert forall|y: u64| pre.contains(y) && y != x implies post.contains(y) by {
                    let k = choose|k: int| 0 <= k < pre.len() && pre[k] == y;
                    if k < i {
                        assert(post[k] == y);
                    } else if k > i {
                        assert(post[k - 1] == y);
                    }
                }
            }
            return true;
        }
        i = i + 1;
    }
    false
}

/// Whether `x` stands in `v`.
pub(crate) fn sorted_contains(v: &Vec<u64>, x: u64) -> (r: bool)
    ensures
        r == v@.contains(x),
{
    let mut i: usize = 0;
    while i < v.len()
        invariant
            i <= v@.len(),
            forall|j: int| 0 <= j < i ==> v@[j] != x,
        decreases v@.len() - i,
    {
        if v[i] == x {
            assert(v@[i as int] == x);
            return true;
        }
        i = i + 1;
    }
    false
}

/// Subscribes `id` to the channel named `channel` in table `t`, creating
/// the channel's entry when it never existed. Fails, leaving the table
/// unchanged, when `id` is already subscribed.
pub(crate) fn table_subscribe(t: &mut Vec<ChannelEntry>, channel: &String, id: u64) -> (r: Result<
    (),
    PubSubError,
>)
    requires
        table_wf(old(t)@),
    ensures
        table_wf(final(t)@),
        r is Ok <==> !subs_of(old(t)@, channel@).contains(id),
        r is Err ==> *final(t) == *old(t) && r == Err::<(), PubSubError>(
            PubSubError::ClientAlreadySubscribedError,
        ),
        has_channel(final(t)@, channel@),
        forall|n: Seq<char>| n != channel@ ==> has_channel(final(t)@, n) == has_channel(old(t)@, n),
        forall|n: Seq<char>| n != channel@ ==> subs_of(final(t)@, n) == subs_of(old(t)@, n),
        r is Ok ==> subs_of(final(t)@, channel@) == subs_of(old(t)@, channel@).insert(id),
        forall|k: int|
            0 <= k < old(t)@.len() ==> (#[trigger] final(t)@[k].name)@ == old(t)@[k].name@,
        final(t)@.len() == old(t)@.len() || (final(t)@.len() == old(t)@.len() + 1
            && final(t)@[old(t)@.len() as int].name@ == channel@),
{
    let found = find_channel(t, channel);
    match found {
        Some(i) => {
            proof {
                lemma_subs_at(t@, channel@, i as int);
            }
            if sorted_contains(&t[i].subs, id) {
                return Err(PubSubError::ClientAlreadySubscribedError);
            }
            let inserted = sorted_insert(&mut t[i].subs, id);
            proof {
                let pre = old(t)@;
                let post = t@;
                assert(post.len() == pre.len());
                assert(forall|k: int| 0 <= k < pre.len() && k != i ==> post[k] == pre[k]);
                assert(post[i as int].name@ == channel@);
                assert forall|a: int, b: int|
                    0 <= a < b < post.len() implies (#[trigger] post[a].name)@ != (
                #[trigger] post[b].name)@ by {
                    assert(post[a].name@ == pre[a].name@);
                    assert(post[b].name@ == pre[b].name@);
                }
                assert(table_wf(post));
                lemma_subs_at(post, channel@, i as int);
                assert forall|n: Seq<char>| n != channel@ implies has_channel(post, n)
                    == has_channel(pre, n) by {
                    if has_channel(post, n) {
                        let k = choose|k: int| 0 <= k < post.len() && post[k].name@ == n;
                        assert(pre[k].name@ == n);
                    }
                    if has_channel(pre, n) {
                        let k = choose|k: int| 0 <= k < pre.len() && pre[k].name@ == n;
                        assert(post[k].name@ == n);
                    }
                }
                assert forall|n: Seq<char>| n != channel@ implies subs_of(post, n) == subs_of(
                    pre,
                    n,
                ) by {
                    assert forall|y: u64| subs_of(post, n).contains(y) implies subs_of(
                        pre,
                        n,
                    ).contains(y) by {
                        let k = choose|k: int|
                            0 <= k < post.len() && post[k].name@ == n && post[k].subs@.contains(y);
                        assert(pre[k].name@ == n && pre[k].subs@.contains(y));
                    }
                    assert forall|y: u64| subs_of(pre, n).contains(y) implies subs_of(
                        post,
                        n,
                    ).contains(y) by {
                        let k = choose|k: int|
                            0 <= k < pre.len() && pre[k].name@ == n && pre[k].subs@.contains(y);
                        assert(post[k].name@ == n && post[k].subs@.contains(y));
                    }
                    assert(subs_of(post, n) =~= subs_of(pre, n));
                }
                assert(inserted);
                assert(subs_of(post, channel@) =~= subs_of(pre, channel@).insert(id));
            }
            Ok(())
        },
        None => {
            let mut subs: Vec<u64> = Vec::new();
            subs.push(id);
            t.push(ChannelEntry { name: channel.clone(), subs });
            proof {
                let pre = old(t)@;
                let post = t@;
                let last = pre.len() as int;
                assert(forall|k: int| 0 <= k < pre.len() ==> post[k] == pre[k]);
                assert(post[last].name@ == channel@);
                assert(post[last].subs@ == Seq::<u64>::empty().push(id));
                assert(forall|k: int| 0 <= k < pre.len() ==> (#[trigger] pre[k].name)@ != channel@);
                assert forall|a: int, b: int|
                    0 <= a < b < post.len() implies (#[trigger] post[a].name)@ != (
                #[trigger] post[b].name)@ by {
                    if b < last {
                        assert(pre[a].name@ != pre[b].name@);
                    }
                }
                assert(table_wf(post));
                assert forall|n: Seq<char>| n != channel@ implies has_channel(post, n)
                    == has_channel(pre, n) by {
                    if has_channel(post, n) {
                        let k = choose|k: int| 0 <= k < post.len() && post[k].name@ == n;
                        assert(k < last);
                        assert(pre[k].name@ == n);
                    }
                    if has_channel(pre, n) {
                        let k = choose|k: int| 0 <= k < pre.len() && pre[k].name@ == n;
                        assert(post[k].name@ == n);
                    }
                }
                assert forall|n: Seq<char>| n != channel@ implies subs_of(post, n) == subs_of(
                    pre,
                    n,
                ) by {
                    assert forall|y: u64| subs_of(post, n).contains(y) implies subs_of(
                        pre,
                        n,
                    ).contains(y) by {
                        let k = choose|k: int|
                            0 <= k < post.len() && post[k].name@ == n && post[k].subs@.contains(y);
                        assert(k < last);
                        assert(pre[k].name@ == n && pre[k].subs@.contains(y));
                    }
                    assert forall|y: u64| subs_of(pre, n).contains(y) implies subs_of(
                        post,
                        n,
                    ).contains(y) by {
                        let k = choose|k: int|
                            0 <= k < pre.len() && pre[k].name@ == n && pre[k].subs@.contains(y);
                        assert(post[k].name@ == n && post[k].subs@.contains(y));
                    }
                    assert(subs_of(post, n) =~= subs_of(pre, n));
                }
                assert forall|y: u64| subs_of(pre, channel@).contains(y) implies false by {
                    let k = choose|k: int|
                        0 <= k < pre.len() && pre[k].name@ == channel@ && pre[k].subs@.contains(y);
                }
                assert forall|y: u64| subs_of(post, channel@).contains(y) implies y == id by {
                    let k = choose|k: int|
                        0 <= k < post.len() && post[k].name@ == channel@ && post[k].subs@.contains(
                            y,
                        );
                    assert(k == last);
                }
                assert(subs_of(post, channel@).contains(id)) by {
                    assert(post[last].subs@[0] == id);
                }
                assert(subs_of(post, channel@) =~= subs_of(pre, channel@).insert(id));
            }
            Ok(())
        },
    }
}

/// Unsubscribes `id` from the channel named `channel` in table `t`.
/// Fails, leaving the table unchanged, when no subscriber set was ever
/// created for the channel or when `id` is not subscribed to it. The
/// channel's entry stays even when its subscriber set becomes empty.
pub(crate) fn table_unsubscribe(t: &mut Vec<ChannelEntry>, channel: &String, id: u64) -> (r: Result<
    (),
    PubSubError,
>)
    requires
        table_wf(old(t)@),
    ensures
        table_wf(final(t)@),
        final(t)@.len() == old(t)@.len(),
        forall|k: int|
            0 <= k < old(t)@.len() ==> (#[trigger] final(t)@[k].name)@ == old(t)@[k].name@,
        forall|n: Seq<char>| has_channel(final(t)@, n) == has_channel(old(t)@, n),
        r is Ok <==> has_channel(old(t)@, channel@) && subs_of(old(t)@, channel@).contains(id),
        !has_channel(old(t)@, channel@) ==> r == Err::<(), PubSubError>(
            PubSubError::ChannelDoesNotExistError,
        ),
        has_channel(old(t)@, channel@) && !subs_of(old(t)@, channel@).contains(id) ==> r == Err::<
            (),
            PubSubError,
        >(PubSubError::ClientNotSubscribedError),
        r is Err ==> *final(t) == *old(t),
        r is Ok ==> subs_of(final(t)@, channel@) == subs_of(old(t)@, channel@).remove(id),
        forall|n: Seq<char>| n != channel@ ==> subs_of(final(t)@, n) == subs_of(old(t)@, n),
{
    let found = find_channel(t, channel);
    match found {
        Some(i) => {
            proof {
                lemma_subs_at(t@, channel@, i as int);
            }
            if !sorted_contains(&t[i].subs, id) {
                return Err(PubSubError::ClientNotSubscribedError);
            }
            let removed = sorted_remove(&mut t[i].subs, id);
            proof {
                let pre = old(t)@;
                let post = t@;
                assert(post.len() == pre.len());
                assert(forall|k: int| 0 <= k < pre.len() && k != i ==> post[k] == pre[k]);
                assert(post[i as int].name@ == channel@);
                assert forall|k: int|
                    0 <= k < pre.len() implies (#[trigger] post[k].name)@ == pre[k].name@ by {}
                assert forall|a: int, b: int|
                    0 <= a < b < post.len() implies (#[trigger] post[a].name)@ != (
                #[trigger] post[b].name)@ by {
                    assert(pre[a].name@ != pre[b].name@);
                }
                assert(table_wf(post));
                lemma_subs_at(post, channel@, i as int);
                assert forall|n: Seq<char>| has_channel(post, n) == has_channel(pre, n) by {
                    if has_channel(post, n) {
                        let k = choose|k: int| 0 <= k < post.len() && post[k].name@ == n;
                        assert(pre[k].name@ == n);
                    }
                    if has_channel(pre, n) {
                        let k = choose|k: int| 0 <= k < pre.len() && pre[k].name@ == n;
                        assert(post[k].name@ == n);
                    }
                }
                assert forall|n: Seq<char>| n != channel@ implies subs_of(post, n) == subs_of(
                    pre,
                    n,
                ) by {
                    assert forall|y: u64| subs_of(post, n).contains(y) implies subs_of(
                        pre,
                        n,
                    ).contains(y) by {
                        let k = choose|k: int|
                            0 <= k < post.len() && post[k].name@ == n && post[k].subs@.contains(y);
                        assert(pre[k].name@ == n && pre[k].subs@.contains(y));
                    }
                    assert forall|y: u64| subs_of(pre, n).contains(y) implies subs_of(
                        post,
                        n,
                    ).contains(y) by {
                        let k = choose|k: int|
                            0 <= k < pre.len() && pre[k].name@ == n && pre[k].subs@.contains(y);
                        assert(post[k].name@ == n && post[k].subs@.contains(y));
                    }
                    assert(subs_of(post, n) =~= subs_of(pre, n));
                }
                assert(removed);
                assert(subs_of(post, channel@) =~= subs_of(pre, channel@).remove(id));
            }
            Ok(())
        },
        None => {
            proof {
                assert forall|y: u64| subs_of(t@, channel@).contains(y) implies false by {
                    let k = choose|k: int|
                        0 <= k < t@.len() && t@[k].name@ == channel@ && t@[k].subs@.contains(y);
                }
            }
            Err(PubSubError::ChannelDoesNotExistError)
        },
    }
}

/// Removes `id` from every channel's subscriber set of table `t`,
/// leaving every channel entry in place.
pub(crate) fn table_purge(t: &mut Vec<ChannelEntry>, id: u64)
    requires
        table_wf(old(t)@),
    ensures
        table_wf(final(t)@),
        final(t)@.len() == old(t)@.len(),
        forall|k: int|
            0 <= k < old(t)@.len() ==> (#[trigger] final(t)@[k].name)@ == old(t)@[k].name@,
        forall|k: int|
            0 <= k < old(t)@.len() ==> (forall|y: u64|
                (#[trigger] final(t)@[k].subs)@.contains(y) <==> old(t)@[k].subs@.contains(y) && y
                    != id),
        forall|n: Seq<char>| has_channel(final(t)@, n) == has_channel(old(t)@, n),
        forall|n: Seq<char>| subs_of(final(t)@, n) == subs_of(old(t)@, n).remove(id),
{
    let mut k: usize = 0;
    while k < t.len()
        invariant
            table_wf(old(t)@),
            t@.len() == old(t)@.len(),
            k <= t@.len(),
            forall|j: int| k <= j < t@.len() ==> t@[j] == old(t)@[j],
            forall|j: int| 0 <= j < k ==> (#[trigger] t@[j].name)@ == old(t)@[j].name@,
            forall|j: int| 0 <= j < k ==> sorted_unique((#[trigger] t@[j].subs)@),
            forall|j: int|
                0 <= j < k ==> (forall|y: u64|
                    (#[trigger] t@[j].subs)@.contains(y) <==> old(t)@[j].subs@.contains(y) && y
                        != id),
        decreases t@.len() - k,
    {
        let removed = sorted_remove(&mut t[k].subs, id);
        proof {
            if !removed {
                assert(!old(t)@[k as int].subs@.contains(id));
            }
        }
        k = k + 1;
    }
    proof {
        let pre = old(t)@;
        let post = t@;
        assert forall|a: int, b: int|
            0 <= a < b < post.len() implies (#[trigger] post[a].name)@ != (
        #[trigger] post[b].name)@ by {
            assert(pre[a].name@ != pre[b].name@);
        }
        assert(table_wf(post));
        assert forall|n: Seq<char>| has_channel(post, n) == has_channel(pre, n) by {
            if has_channel(post, n) {
                let k = choose|k: int| 0 <= k < post.len() && post[k].name@ == n;
                assert(pre[k].name@ == n);
            }
            if has_channel(pre, n) {
                let k = choose|k: int| 0 <= k < pre.len() && pre[k].name@ == n;
                assert(post[k].name@ == n);
            }
        }
        assert forall|n: Seq<char>| subs_of(post, n) == subs_of(pre, n).remove(id) by {
            assert forall|y: u64| subs_of(post, n).contains(y) implies (subs_of(pre, n).contains(y)
                && y != id) by {
                let k = choose|k: int|
                    0 <= k < post.len() && post[k].name@ == n && post[k].subs@.contains(y);
                assert(pre[k].name@ == n && pre[k].subs@.contains(y));
            }
            assert forall|y: u64| subs_of(pre, n).contains(y) && y != id implies subs_of(
                post,
                n,
            ).contains(y) by {
                let k = choose|k: int|
                    0 <= k < pre.len() && pre[k].name@ == n && pre[k].subs@.contains(y);
                assert(post[k].name@ == n && post[k].subs@.contains(y));
            }
            assert(subs_of(post, n) =~= subs_of(pre, n).remove(id));
        }
    }
}

/// The pattern subscribers contributed by the first `n` entries of `t`.
spec fn pattern_subs_prefix(t: Seq<ChannelEntry>, channel: Seq<char>, n: int) -> Set<u64> {
    Set::new(
        |id: u64|
            exists|a: int|
                0 <= a < n && a < t.len() && glob_matches((#[trigger] t[a].name)@, channel)
                    && t[a].subs@.contains(id),
    )
}

/// Merges every identifier of `subs` into the strictly ascending vector
/// `out`, keeping it strictly ascending and duplicate-free.
pub(crate) fn add_all(out: &mut Vec<u64>, subs: &Vec<u64>)
    requires
        sorted_unique(old(out)@),
    ensures
        sorted_unique(final(out)@),
        forall|y: u64| final(out)@.contains(y) <==> old(out)@.contains(y) || subs@.contains(y),
{
    let mut k: usize = 0;
    while k < subs.len()
        invariant
            sorted_unique(out@),
            k <= subs@.len(),
            forall|y: u64|
                out@.contains(y) <==> old(out)@.contains(y) || subs@.take(k as int).contains(y),
        decreases subs@.len() - k,
    {
        let x = subs[k];
        sorted_insert(out, x);
        proof {
            let shorter = subs@.take(k as int);
            let longer = subs@.take(k + 1 as int);
            assert(longer =~= shorter.push(subs@[k as int]));
            assert forall|y: u64| longer.contains(y) implies (shorter.contains(y) || y == subs@[
                k as int
            ]) by {
                let j = choose|j: int| 0 <= j < longer.len() && longer[j] == y;
                if j < k {
                    assert(shorter[j] == y);
                }
            }
            assert forall|y: u64| shorter.contains(y) implies longer.contains(y) by {
                let j = choose|j: int| 0 <= j < shorter.len() && shorter[j] == y;
                assert(longer[j] == y);
            }
            assert(longer.contains(subs@[k as int])) by {
                assert(longer[k as int] == subs@[k as int]);
            }
        }
        k = k + 1;
    }
    proof {
        assert(subs@.take(subs@.len() as int) =~= subs@);
    }
}

/// Computes the delivery list for a publication to `channel`: the union of
/// the literal subscribers of `channel` and the subscribers of every
/// matching pattern, deduplicated and in ascending identifier order.
pub(crate) fn collect_delivery(
    lit: &Vec<ChannelEntry>,
    pat: &Vec<ChannelEntry>,
    channel: &String,
) -> (r: Vec<u64>)
    requires
        table_wf(lit@),
        table_wf(pat@),
    ensures
        sorted_unique(r@),
        forall|y: u64|
            r@.contains(y) <==> subs_of(lit@, channel@).contains(y) || pattern_subs(
                pat@,
                channel@,
            ).contains(y),
{
    let mut out: Vec<u64> = Vec::new();
    match find_channel(lit, channel) {
        Some(i) => {
            proof {
                lemma_subs_at(lit@, channel@, i as int);
            }
            add_all(&mut out, &lit[i].subs);
        },
        None => {
            proof {
                assert forall|y: u64| subs_of(lit@, channel@).contains(y) implies false by {
                    let k = choose|k: int|
                        0 <= k < lit@.len() && lit@[k].name@ == channel@ && lit@[k].subs@.contains(
                            y,
                        );
                }
            }
        },
    }
    proof {
        assert forall|y: u64| pattern_subs_prefix(pat@, channel@, 0).contains(y) implies false by {
            let a = choose|a: int|
                0 <= a < 0 && a < pat@.len() && glob_matches(pat@[a].name@, channel@)
                    && pat@[a].subs@.contains(y);
        }
    }
    let mut j: usize = 0;
    while j < pat.len()
        invariant
            table_wf(pat@),
            sorted_unique(out@),
            j <= pat@.len(),
            forall|y: u64|
                out@.contains(y) <==> subs_of(lit@, channel@).contains(y) || pattern_subs_prefix(
                    pat@,
                    channel@,
                    j as int,
                ).contains(y),
        decreases pat@.len() - j,
    {
        let matched = pattern_matches(pat[j].name.as_str(), channel.as_str());
        if matched {
            add_all(&mut out, &pat[j].subs);
        }
        proof {
            assert forall|y: u64| pattern_subs_prefix(pat@, channel@, j + 1).contains(y) implies
                (pattern_subs_prefix(pat@, channel@, j as int).contains(y) || (glob_matches(
                pat@[j as int].name@,
                channel@,
            ) && pat@[j as int].subs@.contains(y))) by {
                let a = choose|a: int|
                    0 <= a < j + 1 && a < pat@.len() && glob_matches(pat@[a].name@, channel@)
                        && pat@[a].subs@.contains(y);
            }
            assert forall|y: u64|
                pattern_subs_prefix(pat@, channel@, j as int).contains(y) implies
                pattern_subs_prefix(pat@, channel@, j + 1).contains(y) by {
                let a = choose|a: int|
                    0 <= a < j && a < pat@.len() && glob_matches(pat@[a].name@, channel@)
                        && pat@[a].subs@.contains(y);
            }
            if matched {
                assert forall|y: u64|
                    pat@[j as int].subs@.contains(y) implies pattern_subs_prefix(
                    pat@,
                    channel@,
                    j + 1,
                ).contains(y) by {
                    assert(glob_matches(pat@[j as int].name@, channel@));
                }
            }
            assert forall|y: u64|
                out@.contains(y) <==> subs_of(lit@, channel@).contains(y) || pattern_subs_prefix(
                    pat@,
                    channel@,
                    j + 1,
                ).contains(y) by {
                let now = out@.contains(y);
                let lit_has = subs_of(lit@, channel@).contains(y);
                let before = pattern_subs_prefix(pat@, channel@, j as int).contains(y);
                let after = pattern_subs_prefix(pat@, channel@, j + 1).contains(y);
                let here = pat@[j as int].subs@.contains(y);
            }
        }
        j = j + 1;
    }
    proof {
        assert forall|y: u64| pattern_subs(pat@, channel@).contains(y) implies pattern_subs_prefix(
            pat@,
            channel@,
            pat@.len() as int,
        ).contains(y) by {
            let a = choose|a: int|
                0 <= a < pat@.len() && glob_matches(pat@[a].name@, channel@)
                    && pat@[a].subs@.contains(y);
        }
        assert forall|y: u64|
            pattern_subs_prefix(pat@, channel@, pat@.len() as int).contains(y) implies pattern_subs(
            pat@,
            channel@,
        ).contains(y) by {
            let a = choose|a: int|
                0 <= a < pat@.len() && glob_matches(pat@[a].name@, channel@)
                    && pat@[a].subs@.contains(y);
        }
    }
    out
}

} // verus!
