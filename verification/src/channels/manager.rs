//! The registered channels and where outbound messages go.
use vstd::prelude::*;
use crate::model::channel::{Channel, OutboundMessage};
use crate::text::{same_str, texts};

verus! {

/// The channel registered under a name.
pub open spec fn registered<C>(s: Seq<(String, C)>, name: Seq<char>) -> Option<C>
    decreases s.len(),
{
    if s.len() == 0 {
        None
    } else if s.last().0@ == name {
        Some(s.last().1)
    } else {
        registered(s.drop_last(), name)
    }
}

/// The names under which channels are registered.
pub open spec fn names<C>(s: Seq<(String, C)>) -> Seq<Seq<char>> {
    Seq::new(s.len(), |i: int| s[i].0@)
}

/// Whether a channel may give `name` as its name.
pub open spec fn goes_by<C: Channel>(channel: C, name: Seq<char>) -> bool {
    exists|n: String| n@ == name && #[trigger] call_ensures(C::name, (&channel,), n)
}

/// What is to be done about an outbound message.
#[derive(Debug)]
pub enum Dispatch<'a, C> {
    /// It is internal and none of the channels' business.
    Internal,
    /// This channel delivers it.
    Deliver(&'a C),
    /// No channel has the name, and it is dropped.
    Unknown,
}

/// Channels by name; each name at most once.
#[derive(Debug)]
pub struct ChannelManager<C> {
    pub channels: Vec<(String, C)>,
}

proof fn lemma_registered_none<C>(s: Seq<(String, C)>, name: Seq<char>)
    requires
        forall|i: int| 0 <= i < s.len() ==> (#[trigger] s[i]).0@ != name,
    ensures
        registered(s, name) is None,
    decreases s.len(),
{
    if s.len() > 0 {
        assert(s[s.len() - 1].0@ != name);
        assert forall|i: int| 0 <= i < s.drop_last().len() implies (#[trigger] s.drop_last()[i]).0@
            != name by {
            assert(s.drop_last()[i] == s[i]);
        }
        lemma_registered_none(s.drop_last(), name);
    }
}

proof fn lemma_registered_at<C>(s: Seq<(String, C)>, i: int)
    requires
        0 <= i < s.len(),
        names(s).no_duplicates(),
    ensures
        registered(s, s[i].0@) == Some(s[i].1),
    decreases s.len(),
{
    if i < s.len() - 1 {
        assert(names(s)[i] != names(s)[s.len() - 1]);
        assert(names(s.drop_last()) =~= names(s).drop_last());
        assert(s.drop_last()[i] == s[i]);
        lemma_registered_at(s.drop_last(), i);
    }
}

proof fn lemma_registered_remove<C>(s: Seq<(String, C)>, i: int, name: Seq<char>)
    requires
        0 <= i < s.len(),
        names(s).no_duplicates(),
    ensures
        registered(s.remove(i), name) == if s[i].0@ == name {
            None
        } else {
            registered(s, name)
        },
        names(s.remove(i)) == names(s).remove(i),
        names(s.remove(i)).no_duplicates(),
    decreases s.len(),
{
    let r = s.remove(i);
    assert(names(r) =~= names(s).remove(i));
    assert forall|a: int, b: int|
        0 <= a < names(r).len() && 0 <= b < names(r).len() && a != b implies names(r)[a] != names(
        r,
    )[b] by {
        let a2 = if a < i {
            a
        } else {
            a + 1
        };
        let b2 = if b < i {
            b
        } else {
            b + 1
        };
        assert(names(r)[a] == names(s)[a2]);
        assert(names(r)[b] == names(s)[b2]);
    }
    if i == s.len() - 1 {
        assert(r =~= s.drop_last());
        if s[i].0@ == name {
            assert forall|k: int| 0 <= k < r.len() implies (#[trigger] r[k]).0@ != name by {
                assert(names(s)[k] != names(s)[i]);
            }
            lemma_registered_none(r, name);
        }
    } else {
        assert(names(s.drop_last()) =~= names(s).drop_last());
        lemma_registered_remove(s.drop_last(), i, name);
        assert(r.drop_last() =~= s.drop_last().remove(i));
        assert(r.last() == s.last());
        assert(names(s)[i] != names(s)[s.len() - 1]);
        assert(s.drop_last()[i] == s[i]);
    }
}

impl<C: Channel> ChannelManager<C> {
    /// No name is registered twice, and each channel under its own name.
    pub open spec fn wf(&self) -> bool {
        &&& names(self.channels@).no_duplicates()
        &&& forall|i: int|
            0 <= i < self.channels@.len() ==> goes_by(
                (#[trigger] self.channels@[i]).1,
                self.channels@[i].0@,
            )
    }

    pub fn new() -> (r: ChannelManager<C>)
        ensures
            r.wf(),
            r.channels@.len() == 0,
    {
        ChannelManager { channels: Vec::new() }
    }

    /// The position of the channel registered under a name.
    fn position(&self, name: &str) -> (r: Option<usize>)
        ensures
            match r {
                Some(i) => i < self.channels@.len() && self.channels@[i as int].0@ == name@,
                None => forall|i: int|
                    0 <= i < self.channels@.len() ==> (#[trigger] self.channels@[i]).0@ != name@,
            },
    {
        let mut i: usize = 0;
        while i < self.channels.len()
            invariant
                i <= self.channels@.len(),
                forall|k: int| 0 <= k < i ==> (#[trigger] self.channels@[k]).0@ != name@,
            decreases self.channels.len() - i,
        {
            if same_str(self.channels[i].0.as_str(), name) {
                return Some(i);
            }
            i = i + 1;
        }
        None
    }

    /// Registers a channel under its name, in place of one that had it.
    pub fn register(&mut self, channel: C)
        requires
            old(self).wf(),
        ensures
            final(self).wf(),
            exists|name: String| #[trigger]
                call_ensures(C::name, (&channel,), name) && forall|n: Seq<char>|
                    #[trigger] registered(final(self).channels@, n) == if n == name@ {
                        Some(channel)
                    } else {
                        registered(old(self).channels@, n)
                    },
    {
        let name = channel.name();
        let ghost given = name;
        self.unregister_channel(name.as_str());
        let ghost kept = self.channels@;
        proof {
            assert forall|i: int| 0 <= i < kept.len() implies (#[trigger] kept[i]).0@ != name@ by {
                if kept[i].0@ == name@ {
                    lemma_registered_at(kept, i);
                }
            }
        }
        self.channels.push((name, channel));
        proof {
            assert(self.channels@.drop_last() =~= kept);
            assert forall|n: Seq<char>|
                #[trigger] registered(self.channels@, n) == if n == given@ {
                    Some(channel)
                } else {
                    registered(old(self).channels@, n)
                } by {
                assert(self.channels@.last().0@ == name@);
                assert(registered(kept, n) == if n == name@ {
                    None
                } else {
                    registered(old(self).channels@, n)
                });
            }
            assert(names(self.channels@) =~= names(kept).push(given@));
            assert(call_ensures(C::name, (&channel,), given));
            assert forall|i: int| 0 <= i < self.channels@.len() implies goes_by(
                (#[trigger] self.channels@[i]).1,
                self.channels@[i].0@,
            ) by {
                if i < kept.len() {
                    assert(self.channels@[i] == kept[i]);
                }
            }
            assert forall|a: int, b: int|
                0 <= a < names(self.channels@).len() && 0 <= b < names(self.channels@).len() && a
                    != b implies names(self.channels@)[a] != names(self.channels@)[b] by {
                if a < kept.len() && b < kept.len() {
                    assert(names(kept)[a] != names(kept)[b]);
                } else if a < kept.len() {
                    assert(kept[a].0@ != name@);
                } else {
                    assert(kept[b].0@ != name@);
                }
            }
        }
    }

    /// Registers a channel under its name while others are running.
    pub fn register_channel(&mut self, channel: C)
        requires
            old(self).wf(),
        ensures
            final(self).wf(),
            exists|name: String| #[trigger]
                call_ensures(C::name, (&channel,), name) && forall|n: Seq<char>|
                    #[trigger] registered(final(self).channels@, n) == if n == name@ {
                        Some(channel)
                    } else {
                        registered(old(self).channels@, n)
                    },
    {
        self.register(channel)
    }

    /// Removes the channel registered under a name, if there is one.
    pub fn unregister_channel(&mut self, name: &str)
        requires
            old(self).wf(),
        ensures
            final(self).wf(),
            forall|n: Seq<char>|
                #[trigger] registered(final(self).channels@, n) == if n == name@ {
                    None
                } else {
                    registered(old(self).channels@, n)
                },
    {
        let ghost before = self.channels@;
        match self.position(name) {
            Some(i) => {
                proof {
                    assert forall|n: Seq<char>|
                        #[trigger] registered(before.remove(i as int), n) == if n == name@ {
                            None
                        } else {
                            registered(before, n)
                        } by {
                        lemma_registered_remove(before, i as int, n);
                    }
                    lemma_registered_remove(before, i as int, name@);
                }
                self.channels.remove(i);
                proof {
                    assert forall|k: int| 0 <= k < self.channels@.len() implies goes_by(
                        (#[trigger] self.channels@[k]).1,
                        self.channels@[k].0@,
                    ) by {
                        if k < i {
                            assert(self.channels@[k] == before[k]);
                        } else {
                            assert(self.channels@[k] == before[k + 1]);
                        }
                    }
                }
            },
            None => {
                proof {
                    lemma_registered_none(before, name@);
                }
            },
        }
    }

    /// The channel registered under a name.
    pub fn get(&self, name: &str) -> (r: Option<&C>)
        requires
            self.wf(),
        ensures
            match r {
                Some(c) => registered(self.channels@, name@) == Some(*c),
                None => registered(self.channels@, name@) is None,
            },
    {
        match self.position(name) {
            Some(i) => {
                proof {
                    lemma_registered_at(self.channels@, i as int);
                }
                Some(&self.channels[i].1)
            },
            None => {
                proof {
                    lemma_registered_none(self.channels@, name@);
                }
                None
            },
        }
    }

    /// The name of each channel and whether it is running.
    pub fn get_status(&self) -> (r: Vec<(String, bool)>)
        ensures
            r@.len() == self.channels@.len(),
            forall|i: int|
                0 <= i < r@.len() ==> (#[trigger] r@[i]).0@ == self.channels@[i].0@
                    && call_ensures(C::is_running, (&self.channels@[i].1,), r@[i].1),
    {
        let mut out: Vec<(String, bool)> = Vec::new();
        let mut i: usize = 0;
        while i < self.channels.len()
            invariant
                i <= self.channels@.len(),
                out@.len() == i,
                forall|k: int|
                    0 <= k < i ==> (#[trigger] out@[k]).0@ == self.channels@[k].0@
                        && call_ensures(C::is_running, (&self.channels@[k].1,), out@[k].1),
            decreases self.channels.len() - i,
        {
            out.push((self.channels[i].0.clone(), self.channels[i].1.is_running()));
            i = i + 1;
        }
        out
    }

    /// The names of the channels.
    pub fn enabled_channels(&self) -> (r: Vec<String>)
        ensures
            texts(r@) == names(self.channels@),
    {
        let mut out: Vec<String> = Vec::new();
        let mut i: usize = 0;
        while i < self.channels.len()
            invariant
                i <= self.channels@.len(),
                out@.len() == i,
                forall|k: int| 0 <= k < i ==> (#[trigger] out@[k])@ == self.channels@[k].0@,
            decreases self.channels.len() - i,
        {
            out.push(self.channels[i].0.clone());
            i = i + 1;
        }
        proof {
            assert(texts(out@) =~= names(self.channels@));
        }
        out
    }

    /// What is to be done about an outbound message.
    pub fn outbound_dispatch(&self, msg: &OutboundMessage) -> (r: Dispatch<'_, C>)
        requires
            self.wf(),
        ensures
            match r {
                Dispatch::Internal => msg.target_channel@ == "system"@,
                Dispatch::Deliver(c) => msg.target_channel@ != "system"@ && registered(
                    self.channels@,
                    msg.target_channel@,
                ) == Some(*c),
                Dispatch::Unknown => msg.target_channel@ != "system"@ && registered(
                    self.channels@,
                    msg.target_channel@,
                ) is None,
            },
    {
        if same_str(msg.target_channel.as_str(), "system") {
            return Dispatch::Internal;
        }
        match self.get(msg.target_channel.as_str()) {
            Some(c) => Dispatch::Deliver(c),
            None => Dispatch::Unknown,
        }
    }
}

} // verus!
