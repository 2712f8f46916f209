//! Channel subscriptions: which connections hear the messages of a channel.
use vstd::prelude::*;

use crate::payload::str_eq;

verus! {

/// The channels as (name, subscribers) pairs, strings as character sequences.
pub open spec fn channels_view(chs: Seq<(String, Vec<u64>)>) -> Seq<(Seq<char>, Seq<u64>)> {
    chs.map_values(|c: (String, Vec<u64>)| (c.0@, c.1@))
}

/// No channel is listed twice.
pub open spec fn names_distinct(chs: Seq<(Seq<char>, Seq<u64>)>) -> bool {
    forall|i: int, j: int|
        0 <= i < chs.len() && 0 <= j < chs.len() && i != j ==> #[trigger] chs[i].0 != #[trigger] chs[j].0
}

/// The subscribers of channel `name`, in the order they subscribed; none for
/// a channel nobody joined.
pub open spec fn subscribers(chs: Seq<(Seq<char>, Seq<u64>)>, name: Seq<char>) -> Seq<u64>
    decreases chs.len(),
{
    if chs.len() == 0 {
        Seq::empty()
    } else if chs.last().0 == name {
        chs.last().1
    } else {
        subscribers(chs.drop_last(), name)
    }
}

/// The connections subscribed to each channel, each known by a number that
/// the caller gives it.
pub struct ChannelManager {
    channels: Vec<(String, Vec<u64>)>,
}

impl View for ChannelManager {
    type V = Seq<(Seq<char>, Seq<u64>)>;

    closed spec fn view(&self) -> Seq<(Seq<char>, Seq<u64>)> {
        channels_view(self.channels@)
    }
}

proof fn lemma_subscribers_at(chs: Seq<(Seq<char>, Seq<u64>)>, i: int)
    requires
        names_distinct(chs),
        0 <= i < chs.len(),
    ensures
        subscribers(chs, chs[i].0) == chs[i].1,
    decreases chs.len(),
{
    if i < chs.len() - 1 {
        assert(chs.drop_last()[i] == chs[i]);
        lemma_subscribers_at(chs.drop_last(), i);
    }
}

proof fn lemma_subscribers_absent(chs: Seq<(Seq<char>, Seq<u64>)>, name: Seq<char>)
    requires
        forall|i: int| 0 <= i < chs.len() ==> #[trigger] chs[i].0 != name,
    ensures
        subscribers(chs, name) == Seq::<u64>::empty(),
    decreases chs.len(),
{
    if chs.len() > 0 {
        assert(chs.last() == chs[chs.len() - 1]);
        assert forall|i: int| 0 <= i < chs.drop_last().len() implies #[trigger] chs.drop_last()[i].0 != name by {
            assert(chs.drop_last()[i] == chs[i]);
        }
        lemma_subscribers_absent(chs.drop_last(), name);
    }
}

proof fn lemma_subscribers_update(chs: Seq<(Seq<char>, Seq<u64>)>, i: int, subs: Seq<u64>, name: Seq<char>)
    requires
        names_distinct(chs),
        0 <= i < chs.len(),
    ensures
        subscribers(chs.update(i, (chs[i].0, subs)), name) == if name == chs[i].0 { subs } else { subscribers(chs, name) },
    decreases chs.len(),
{
    let u = chs.update(i, (chs[i].0, subs));
    if i == chs.len() - 1 {
        assert(u.drop_last() =~= chs.drop_last());
    } else {
        assert(u.drop_last() =~= chs.drop_last().update(i, (chs[i].0, subs)));
        assert(chs.drop_last()[i] == chs[i]);
        lemma_subscribers_update(chs.drop_last(), i, subs, name);
        assert(u.last() == chs.last());
        if name == chs[i].0 {
            assert(chs.last().0 != chs[i].0);
        }
    }
}

proof fn lemma_subscribers_push(chs: Seq<(Seq<char>, Seq<u64>)>, entry: (Seq<char>, Seq<u64>), name: Seq<char>)
    ensures
        subscribers(chs.push(entry), name) == if name == entry.0 { entry.1 } else { subscribers(chs, name) },
{
    assert(chs.push(entry).drop_last() =~= chs);
}

impl ChannelManager {
    #[verifier::type_invariant]
    spec fn wf(self) -> bool {
        names_distinct(channels_view(self.channels@))
    }

    /// A manager with no channels.
    pub fn new() -> (m: ChannelManager)
        ensures
            m@ == Seq::<(Seq<char>, Seq<u64>)>::empty(),
            forall|name: Seq<char>| subscribers(m@, name) == Seq::<u64>::empty(),
    {
        let m = ChannelManager { channels: Vec::new() };
        assert(m@ =~= Seq::<(Seq<char>, Seq<u64>)>::empty());
        m
    }

    /// Subscribes `subscriber` to `channel`, after those that subscribed
    /// before; the other channels keep their subscribers.
    pub fn subscribe(&mut self, channel: String, subscriber: u64)
        ensures
            subscribers(final(self)@, channel@) == subscribers(old(self)@, channel@).push(subscriber),
            forall|other: Seq<char>| other != channel@ ==> subscribers(final(self)@, other) == subscribers(old(self)@, other),
    {
        proof {
            use_type_invariant(&*self);
        }
        let mut chs: Vec<(String, Vec<u64>)> = Vec::new();
        std::mem::swap(&mut chs, &mut self.channels);
        let ghost before = channels_view(chs@);
        let n = chs.len();
        let mut i: usize = 0;
        while i < n
            invariant
                n == chs.len(),
                i <= n,
                before == channels_view(chs@),
                before == old(self)@,
                names_distinct(before),
                forall|j: int| 0 <= j < i ==> #[trigger] before[j].0 != channel@,
            decreases n - i,
        {
            if str_eq(chs[i].0.as_str(), channel.as_str()) {
                let (name, mut subs) = chs.remove(i);
                let ghost old_subs = subs@;
                subs.push(subscriber);
                chs.insert(i, (name, subs));
                proof {
                    assert(channels_view(chs@) =~= before.update(i as int, (before[i as int].0, old_subs.push(subscriber))));
                    lemma_subscribers_at(before, i as int);
                    assert forall|other: Seq<char>| true implies subscribers(channels_view(chs@), other)
                        == (if other == channel@ { subscribers(before, channel@).push(subscriber) } else { subscribers(before, other) }) by {
                        lemma_subscribers_update(before, i as int, old_subs.push(subscriber), other);
                    }
                }
                self.channels = chs;
                return;
            }
            i += 1;
        }
        let mut subs: Vec<u64> = Vec::new();
        subs.push(subscriber);
        let ghost name_view = channel@;
        chs.push((channel, subs));
        proof {
            assert(channels_view(chs@) =~= before.push((name_view, seq![subscriber])));
            lemma_subscribers_absent(before, name_view);
            assert(Seq::<u64>::empty().push(subscriber) =~= seq![subscriber]);
            assert forall|other: Seq<char>| true implies subscribers(channels_view(chs@), other)
                == (if other == name_view { subscribers(before, name_view).push(subscriber) } else { subscribers(before, other) }) by {
                lemma_subscribers_push(before, (name_view, seq![subscriber]), other);
            }
        }
        self.channels = chs;
    }

    /// The connections a message to `channel` goes to: its subscribers, in
    /// the order they subscribed; none when nobody joined it.
    pub fn send_to_channel(&self, channel: &str) -> (to: Vec<u64>)
        ensures
            to@ == subscribers(self@, channel@),
    {
        let mut i = self.channels.len();
        assert(self@.take(i as int) =~= self@);
        while i > 0
            invariant
                i <= self.channels.len(),
                subscribers(self@, channel@) == subscribers(self@.take(i as int), channel@),
            decreases i,
        {
            assert(self@.take(i as int).drop_last() =~= self@.take(i - 1));
            if str_eq(self.channels[i - 1].0.as_str(), channel) {
                return self.channels[i - 1].1.clone();
            }
            i -= 1;
        }
        Vec::new()
    }
}

} // verus!
