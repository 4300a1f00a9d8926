//! The session layer: folds parsed messages into semantic events and keeps
//! the per-channel roster, modelled as a map from channel name to the set of
//! nicks present.

use vstd::prelude::*;
use crate::proto::{Message, MessageView, Prefix, take_until, take_until_spec};
use crate::strutil::eq_str;

verus! {

broadcast use vstd::set::group_set_axioms;

// ---------------------------------------------------------------------------
// State
// ---------------------------------------------------------------------------

/// A channel name used as a roster key.
#[derive(Debug, Clone, PartialEq, Eq, Hash)]
pub struct ChannelId(pub String);

/// One channel and the nicks present in it.
#[derive(Debug, Clone)]
pub struct Channel {
    pub name: String,
    /// The members, without duplicates: a set stored as a vector.
    pub users: Vec<String>,
}

/// The per-connection session state.
#[derive(Debug, Clone)]
pub struct ServerState {
    pub network: String,
    pub nick: String,
    /// The joined channels, with pairwise distinct names.
    pub channels: Vec<Channel>,
}

/// The abstract value of a `ServerState`: the roster as a map from channel
/// name to the set of nicks in it.
pub struct ServerStateView {
    pub network: Seq<char>,
    pub nick: Seq<char>,
    pub channels: Map<Seq<char>, Set<Seq<char>>>,
}

/// The set of nicks of one channel.
pub open spec fn users_set(c: Channel) -> Set<Seq<char>> {
    c.users.deep_view().to_set()
}

/// The roster map encoded by a channel vector.
pub open spec fn channels_map_spec(cs: Seq<Channel>) -> Map<Seq<char>, Set<Seq<char>>>
    decreases cs.len(),
{
    if cs.len() == 0 {
        Map::empty()
    } else {
        channels_map_spec(cs.drop_last()).insert(cs.last().name@, users_set(cs.last()))
    }
}

impl View for ServerState {
    type V = ServerStateView;

    open spec fn view(&self) -> ServerStateView {
        ServerStateView {
            network: self.network@,
            nick: self.nick@,
            channels: channels_map_spec(self.channels@),
        }
    }
}

/// No two elements of `s` are equal.
pub open spec fn nodup<A>(s: Seq<A>) -> bool {
    forall|i: int, j: int| 0 <= i < j < s.len() ==> s[i] != s[j]
}

impl ServerState {
    /// The representation invariant: channel names are pairwise distinct and
    /// each member list is duplicate-free.
    pub open spec fn wf(&self) -> bool {
        &&& (forall|i: int, j: int|
            0 <= i < j < self.channels@.len() ==> (#[trigger] self.channels@[i]).name@ != (
            #[trigger] self.channels@[j]).name@)
        &&& (forall|i: int|
            0 <= i < self.channels@.len() ==> nodup(
                (#[trigger] self.channels@[i]).users.deep_view(),
            ))
    }

    /// A fresh state for one network: no channels joined yet.
    pub fn new(network: String, nick: String) -> (r: Self)
        ensures
            r.wf(),
            r@.network == network@,
            r@.nick == nick@,
            r@.channels == Map::<Seq<char>, Set<Seq<char>>>::empty(),
    {
        let r = ServerState { network, nick, channels: Vec::new() };
        proof {
            assert(r.channels@.len() == 0);
        }
        r
    }

    /// The channel of the given name, if joined.
    pub fn channel(&self, id: &ChannelId) -> (r: Option<&Channel>)
        requires
            self.wf(),
        ensures
            match r {
                Some(c) => self@.channels.contains_key(id.0@) && users_set(*c)
                    == self@.channels[id.0@] && c.name@ == id.0@,
                None => !self@.channels.contains_key(id.0@),
            },
    {
        match find_channel(&self.channels, id.0.as_str()) {
            Some(i) => {
                proof {
                    lemma_channels_map_at(self.channels@, i as int);
                }
                Some(&self.channels[i])
            },
            None => {
                proof {
                    lemma_channels_map_absent(self.channels@, id.0@);
                }
                None
            },
        }
    }
}

// ---------------------------------------------------------------------------
// Events
// ---------------------------------------------------------------------------

/// A semantic event delivered by the session layer.
#[derive(Debug, Clone)]
pub enum Event {
    Welcome(String),
    Join { nick: String, channel: String },
    Part { nick: String, channel: String },
    PrivMsg { from: String, target: String, text: String },
    Notice { from: String, target: String, text: String },
    Topic { channel: String, text: String },
    Unknown(Message),
}

/// The abstract value of an `Event`.
pub enum EventView {
    Welcome(Seq<char>),
    Join { nick: Seq<char>, channel: Seq<char> },
    Part { nick: Seq<char>, channel: Seq<char> },
    PrivMsg { from: Seq<char>, target: Seq<char>, text: Seq<char> },
    Notice { from: Seq<char>, target: Seq<char>, text: Seq<char> },
    Topic { channel: Seq<char>, text: Seq<char> },
    Unknown(MessageView),
}

impl View for Event {
    type V = EventView;

    open spec fn view(&self) -> EventView {
        match self {
            Event::Welcome(t) => EventView::Welcome(t@),
            Event::Join { nick, channel } => EventView::Join { nick: nick@, channel: channel@ },
            Event::Part { nick, channel } => EventView::Part { nick: nick@, channel: channel@ },
            Event::PrivMsg { from, target, text } => EventView::PrivMsg {
                from: from@,
                target: target@,
                text: text@,
            },
            Event::Notice { from, target, text } => EventView::Notice {
                from: from@,
                target: target@,
                text: text@,
            },
            Event::Topic { channel, text } => EventView::Topic { channel: channel@, text: text@ },
            Event::Unknown(m) => EventView::Unknown(m@),
        }
    }
}

// ---------------------------------------------------------------------------
// The transition function
// ---------------------------------------------------------------------------

/// The nick of a message source: the prefix up to the first `!`, the whole
/// prefix if it has no `!`, and empty with no prefix at all.
pub open spec fn nick_of_prefix(p: Option<Seq<char>>) -> Seq<char> {
    match p {
        None => Seq::empty(),
        Some(raw) => take_until_spec(raw, '!').0,
    }
}

/// The `i`-th parameter, or empty if there is none.
pub open spec fn param_at(m: MessageView, i: int) -> Seq<char> {
    if 0 <= i < m.params.len() {
        m.params[i]
    } else {
        Seq::empty()
    }
}

/// The last parameter, or empty if there is none.
pub open spec fn last_param(m: MessageView) -> Seq<char> {
    if m.params.len() > 0 {
        m.params.last()
    } else {
        Seq::empty()
    }
}

/// What one message does to the session: the state afterwards and the event
/// delivered. `001` welcomes, `JOIN`/`PART` update the roster, `PRIVMSG`,
/// `NOTICE` and `332` only report, everything else is passed through
/// unrecognized.
pub open spec fn session_step(pre: ServerStateView, m: MessageView) -> (
    ServerStateView,
    EventView,
) {
    if m.command == "001"@ {
        (pre, EventView::Welcome(param_at(m, 1)))
    } else if m.command == "JOIN"@ {
        let who = nick_of_prefix(m.prefix);
        let chan = last_param(m);
        let before = if pre.channels.contains_key(chan) {
            pre.channels[chan]
        } else {
            Set::empty()
        };
        (
            ServerStateView {
                network: pre.network,
                nick: pre.nick,
                channels: pre.channels.insert(chan, before.insert(who)),
            },
            EventView::Join { nick: who, channel: chan },
        )
    } else if m.command == "PART"@ {
        let who = nick_of_prefix(m.prefix);
        let chan = param_at(m, 0);
        let channels = if pre.channels.contains_key(chan) {
            pre.channels.insert(chan, pre.channels[chan].remove(who))
        } else {
            pre.channels
        };
        (
            ServerStateView { network: pre.network, nick: pre.nick, channels },
            EventView::Part { nick: who, channel: chan },
        )
    } else if m.command == "PRIVMSG"@ {
        (
            pre,
            EventView::PrivMsg {
                from: nick_of_prefix(m.prefix),
                target: param_at(m, 0),
                text: param_at(m, 1),
            },
        )
    } else if m.command == "NOTICE"@ {
        (
            pre,
            EventView::Notice {
                from: nick_of_prefix(m.prefix),
                target: param_at(m, 0),
                text: param_at(m, 1),
            },
        )
    } else if m.command == "332"@ {
        (pre, EventView::Topic { channel: param_at(m, 1), text: param_at(m, 2) })
    } else {
        (pre, EventView::Unknown(m))
    }
}

// ---------------------------------------------------------------------------
// Roster map lemmas
// ---------------------------------------------------------------------------

/// With distinct names, the map holds each channel's member set under its
/// name.
proof fn lemma_channels_map_at(cs: Seq<Channel>, i: int)
    requires
        forall|a: int, b: int| 0 <= a < b < cs.len() ==> (#[trigger] cs[a]).name@ != (
        #[trigger] cs[b]).name@,
        0 <= i < cs.len(),
    ensures
        channels_map_spec(cs).contains_key(cs[i].name@),
        channels_map_spec(cs)[cs[i].name@] == users_set(cs[i]),
    decreases cs.len(),
{
    if i == cs.len() - 1 {
    } else {
        lemma_channels_map_at(cs.drop_last(), i);
        assert(cs.drop_last()[i] == cs[i]);
        assert(cs.last().name@ != cs[i].name@);
    }
}

/// A name no channel bears is not in the map.
proof fn lemma_channels_map_absent(cs: Seq<Channel>, n: Seq<char>)
    requires
        forall|a: int| 0 <= a < cs.len() ==> (#[trigger] cs[a]).name@ != n,
    ensures
        !channels_map_spec(cs).contains_key(n),
    decreases cs.len(),
{
    if cs.len() > 0 {
        lemma_channels_map_absent(cs.drop_last(), n);
        assert(cs.last().name@ != n);
    }
}

/// Replacing one channel by another of the same name updates its entry.
proof fn lemma_channels_map_update(cs: Seq<Channel>, i: int, c: Channel)
    requires
        forall|a: int, b: int| 0 <= a < b < cs.len() ==> (#[trigger] cs[a]).name@ != (
        #[trigger] cs[b]).name@,
        0 <= i < cs.len(),
        c.name@ == cs[i].name@,
    ensures
        channels_map_spec(cs.update(i, c)) == channels_map_spec(cs).insert(c.name@, users_set(c)),
    decreases cs.len(),
{
    let u = cs.update(i, c);
    if i == cs.len() - 1 {
        assert(u.drop_last() =~= cs.drop_last());
        assert(u.last() == c);
        assert(channels_map_spec(u) == channels_map_spec(cs.drop_last()).insert(
            c.name@,
            users_set(c),
        ));
        assert(channels_map_spec(cs).insert(c.name@, users_set(c)) =~= channels_map_spec(
            cs.drop_last(),
        ).insert(c.name@, users_set(c)));
    } else {
        assert(u.drop_last() =~= cs.drop_last().update(i, c));
        assert(u.last() == cs.last());
        assert(cs.drop_last()[i] == cs[i]);
        lemma_channels_map_update(cs.drop_last(), i, c);
        assert(cs.last().name@ != c.name@);
        assert(channels_map_spec(u) =~= channels_map_spec(cs).insert(c.name@, users_set(c)));
    }
}

/// Pushing one element adds it to the set a sequence stands for.
proof fn lemma_to_set_push<A>(s: Seq<A>, x: A)
    ensures
        s.push(x).to_set() == s.to_set().insert(x),
{
    let l = s.push(x).to_set();
    let r = s.to_set().insert(x);
    assert forall|a: A| l.contains(a) implies r.contains(a) by {
        let i = choose|i: int| 0 <= i < s.push(x).len() && s.push(x)[i] == a;
        if i < s.len() {
            assert(s[i] == a);
        }
    }
    assert forall|a: A| r.contains(a) implies l.contains(a) by {
        if a == x {
            assert(s.push(x)[s.len() as int] == a);
        } else {
            let i = choose|i: int| 0 <= i < s.len() && s[i] == a;
            assert(s.push(x)[i] == a);
        }
    }
    assert(l =~= r);
}

/// Removing the only occurrence of an element removes it from the set a
/// sequence stands for.
proof fn lemma_to_set_remove<A>(s: Seq<A>, i: int)
    requires
        nodup(s),
        0 <= i < s.len(),
    ensures
        s.remove(i).to_set() == s.to_set().remove(s[i]),
{
    let t = s.remove(i);
    let l = t.to_set();
    let r = s.to_set().remove(s[i]);
    assert forall|a: A| l.contains(a) implies r.contains(a) by {
        let j = choose|j: int| 0 <= j < t.len() && t[j] == a;
        if j < i {
            assert(s[j] == a);
            assert(a != s[i]);
        } else {
            assert(s[j + 1] == a);
            assert(a != s[i]);
        }
    }
    assert forall|a: A| r.contains(a) implies l.contains(a) by {
        let j = choose|j: int| 0 <= j < s.len() && s[j] == a;
        if j < i {
            assert(t[j] == a);
        } else {
            assert(j != i);
            assert(t[j - 1] == a);
        }
    }
    assert(l =~= r);
}

// ---------------------------------------------------------------------------
// Executable helpers
// ---------------------------------------------------------------------------

/// The index of the channel of the given name, if any.
fn find_channel(channels: &Vec<Channel>, name: &str) -> (r: Option<usize>)
    ensures
        match r {
            Some(i) => i < channels.len() && channels@[i as int].name@ == name@,
            None => forall|i: int|
                0 <= i < channels@.len() ==> (#[trigger] channels@[i]).name@ != name@,
        },
{
    let n = channels.len();
    let mut i: usize = 0;
    while i < n
        invariant
            n == channels.len(),
            i <= n,
            forall|j: int| 0 <= j < i ==> (#[trigger] channels@[j]).name@ != name@,
        decreases n - i,
    {
        if eq_str(channels[i].name.as_str(), name) {
            return Some(i);
        }
        i += 1;
    }
    None
}

/// The index of a nick in a member list, if present.
fn find_user(users: &Vec<String>, who: &str) -> (r: Option<usize>)
    ensures
        match r {
            Some(i) => i < users.len() && users@[i as int]@ == who@,
            None => forall|i: int| 0 <= i < users@.len() ==> (#[trigger] users@[i])@ != who@,
        },
{
    let n = users.len();
    let mut i: usize = 0;
    while i < n
        invariant
            n == users.len(),
            i <= n,
            forall|j: int| 0 <= j < i ==> (#[trigger] users@[j])@ != who@,
        decreases n - i,
    {
        if eq_str(users[i].as_str(), who) {
            return Some(i);
        }
        i += 1;
    }
    None
}

/// The nick of the message source: the prefix up to the first `!`.
fn nick_from_prefix(p: &Option<Prefix>) -> (r: String)
    ensures
        r@ == nick_of_prefix(match p {
            Some(q) => Some(q@),
            None => None,
        }),
{
    match p {
        Some(q) => {
            let t = take_until(q.raw.as_str(), '!');
            String::from_str(t.0)
        },
        None => String::new(),
    }
}

/// The `i`-th parameter of a message, or empty.
fn param_string(params: &Vec<String>, i: usize) -> (r: String)
    ensures
        r@ == (if i < params.len() {
            params.deep_view()[i as int]
        } else {
            Seq::<char>::empty()
        }),
{
    if i < params.len() {
        params[i].clone()
    } else {
        String::new()
    }
}

/// The last parameter of a message, or empty.
fn last_param_string(params: &Vec<String>) -> (r: String)
    ensures
        r@ == (if params.len() > 0 {
            params.deep_view().last()
        } else {
            Seq::<char>::empty()
        }),
{
    let n = params.len();
    if n > 0 {
        params[n - 1].clone()
    } else {
        String::new()
    }
}

// ---------------------------------------------------------------------------
// The fold itself
// ---------------------------------------------------------------------------

impl ServerState {
    /// Fold one message into the state and report what happened, exactly as
    /// `session_step` describes.
    pub fn on_message(&mut self, msg: Message) -> (ev: Event)
        requires
            old(self).wf(),
        ensures
            final(self).wf(),
            final(self)@ == session_step(old(self)@, msg@).0,
            ev@ == session_step(old(self)@, msg@).1,
    {
        let cmd_is_001 = eq_str(msg.command.as_str(), "001");
        let cmd_is_join = eq_str(msg.command.as_str(), "JOIN");
        let cmd_is_part = eq_str(msg.command.as_str(), "PART");
        let cmd_is_privmsg = eq_str(msg.command.as_str(), "PRIVMSG");
        let cmd_is_notice = eq_str(msg.command.as_str(), "NOTICE");
        let cmd_is_332 = eq_str(msg.command.as_str(), "332");
        if cmd_is_001 {
            Event::Welcome(param_string(&msg.params, 1))
        } else if cmd_is_join {
            let who = nick_from_prefix(&msg.prefix);
            let chan = last_param_string(&msg.params);
            let ghost pre = self.channels@;
            match find_channel(&self.channels, chan.as_str()) {
                Some(i) => {
                    let mut ch = self.channels.remove(i);
                    let ghost oldch = ch;
                    match find_user(&ch.users, who.as_str()) {
                        None => {
                            ch.users.push(who.clone());
                            proof {
                                lemma_to_set_push(oldch.users.deep_view(), who@);
                                assert(ch.users.deep_view() =~= oldch.users.deep_view().push(
                                    who@));
                                assert(users_set(ch) == users_set(oldch).insert(who@));
                            }
                        },
                        Some(k) => {
                            proof {
                                assert(ch.users.deep_view()[k as int] == who@);
                                assert(users_set(ch).contains(who@));
                                assert(users_set(ch) =~= users_set(ch).insert(who@));
                            }
                        },
                    }
                    self.channels.insert(i, ch);
                    proof {
                        assert(self.channels@ =~= pre.update(i as int, ch));
                        lemma_channels_map_update(pre, i as int, ch);
                        lemma_channels_map_at(pre, i as int);
                        assert(channels_map_spec(self.channels@) == channels_map_spec(
                            pre,
                        ).insert(chan@, channels_map_spec(pre)[chan@].insert(who@)));
                        assert(nodup(ch.users.deep_view()));
                    }
                },
                None => {
                    let mut users: Vec<String> = Vec::new();
                    users.push(who.clone());
                    let ch = Channel { name: chan.clone(), users };
                    self.channels.push(ch);
                    proof {
                        assert(self.channels@.drop_last() =~= pre);
                        lemma_channels_map_absent(pre, chan@);
                        assert(ch.users.deep_view().len() == 1);
                        assert(ch.users.deep_view()[0] == who@);
                        assert forall|a: Seq<char>| users_set(ch).contains(a) implies a
                            == who@ by {
                            let k = choose|k: int|
                                0 <= k < ch.users.deep_view().len() && ch.users.deep_view()[k]
                                    == a;
                            assert(k == 0);
                        }
                        assert(users_set(ch).contains(who@));
                        assert(users_set(ch) =~= Set::<Seq<char>>::empty().insert(who@));
                        assert(channels_map_spec(self.channels@) == channels_map_spec(
                            pre,
                        ).insert(chan@, Set::<Seq<char>>::empty().insert(who@)));
                        assert(nodup(ch.users.deep_view()));
                    }
                },
            }
            Event::Join { nick: who, channel: chan }
        } else if cmd_is_part {
            let who = nick_from_prefix(&msg.prefix);
            let chan = param_string(&msg.params, 0);
            let ghost pre = self.channels@;
            match find_channel(&self.channels, chan.as_str()) {
                Some(i) => {
                    let mut ch = self.channels.remove(i);
                    let ghost oldch = ch;
                    match find_user(&ch.users, who.as_str()) {
                        Some(k) => {
                            ch.users.remove(k);
                            proof {
                                lemma_to_set_remove(oldch.users.deep_view(), k as int);
                                assert(ch.users.deep_view() =~= oldch.users.deep_view().remove(
                                    k as int,
                                ));
                                assert(users_set(ch) == users_set(oldch).remove(who@));
                            }
                        },
                        None => {
                            proof {
                                assert(!users_set(ch).contains(who@));
                                assert(users_set(ch) =~= users_set(ch).remove(who@));
                            }
                        },
                    }
                    self.channels.insert(i, ch);
                    proof {
                        assert(self.channels@ =~= pre.update(i as int, ch));
                        lemma_channels_map_update(pre, i as int, ch);
                        lemma_channels_map_at(pre, i as int);
                        assert(channels_map_spec(self.channels@) == channels_map_spec(
                            pre,
                        ).insert(chan@, channels_map_spec(pre)[chan@].remove(who@)));
                        assert(nodup(ch.users.deep_view()));
                    }
                },
                None => {
                    proof {
                        lemma_channels_map_absent(pre, chan@);
                    }
                },
            }
            Event::Part { nick: who, channel: chan }
        } else if cmd_is_privmsg {
            Event::PrivMsg {
                from: nick_from_prefix(&msg.prefix),
                target: param_string(&msg.params, 0),
                text: param_string(&msg.params, 1),
            }
        } else if cmd_is_notice {
            Event::Notice {
                from: nick_from_prefix(&msg.prefix),
                target: param_string(&msg.params, 0),
                text: param_string(&msg.params, 1),
            }
        } else if cmd_is_332 {
            Event::Topic {
                channel: param_string(&msg.params, 1),
                text: param_string(&msg.params, 2),
            }
        } else {
            Event::Unknown(msg)
        }
    }
}

} // verus!
