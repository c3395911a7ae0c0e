//! A model of the remote platform's storage-relevant state: a fixed
//! namespace (guild) of named channels, each a list of messages in
//! posting order.
//!
//! Identifiers are assigned by the platform, strictly increasing with
//! time, so a channel's messages are sorted by identifier and the
//! newest-first stream is exactly the reverse of the stored order.
//! Channel names are kept pre-lowercased, by the platform's own
//! convention. A channel may also hold system notification messages
//! (not `regular`); they are never rows.
//!
//! The model takes "the first pin" to be the earliest pinned message
//! in posting order — an assumption about the platform's pin listing.
//! It is immaterial while schemas are write-once, since a channel this
//! adapter manages never holds more than one pin.

use vstd::prelude::*;

use crate::name::lower;

verus! {

/// One message: a content unit with its platform-assigned identifier,
/// pin flag, and message kind (`regular` or system notification).
#[derive(Debug, PartialEq, Eq)]
pub struct Message {
    pub id: u64,
    pub content: Vec<u8>,
    pub pinned: bool,
    pub regular: bool,
}

/// The mathematical view of a [`Message`].
#[verifier::ext_equal]
pub struct MessageV {
    pub id: u64,
    pub content: Seq<u8>,
    pub pinned: bool,
    pub regular: bool,
}

impl View for Message {
    type V = MessageV;

    open spec fn view(&self) -> MessageV {
        MessageV { id: self.id, content: self.content@, pinned: self.pinned, regular: self.regular }
    }
}

/// One channel: the container of a table, holding its messages in
/// posting order (oldest first).
#[derive(Debug, PartialEq, Eq)]
pub struct Channel {
    pub id: u64,
    pub name: Vec<u8>,
    pub messages: Vec<Message>,
}

/// The mathematical view of a [`Channel`].
#[verifier::ext_equal]
pub struct ChannelV {
    pub id: u64,
    pub name: Seq<u8>,
    pub messages: Seq<MessageV>,
}

/// The views of a message list, element by element.
pub open spec fn msg_views(ms: Seq<Message>) -> Seq<MessageV> {
    ms.map_values(|m: Message| m@)
}

impl View for Channel {
    type V = ChannelV;

    open spec fn view(&self) -> ChannelV {
        ChannelV { id: self.id, name: self.name@, messages: msg_views(self.messages@) }
    }
}

/// The fixed namespace: every channel the adapter can see, and the
/// next identifier the platform will assign.
#[derive(Debug, PartialEq, Eq)]
pub struct Guild {
    pub channels: Vec<Channel>,
    pub next_id: u64,
}

/// The mathematical view of a [`Guild`].
#[verifier::ext_equal]
pub struct GuildV {
    pub channels: Seq<ChannelV>,
    pub next_id: u64,
}

/// The views of a channel list, element by element.
pub open spec fn chan_views(cs: Seq<Channel>) -> Seq<ChannelV> {
    cs.map_values(|c: Channel| c@)
}

impl View for Guild {
    type V = GuildV;

    open spec fn view(&self) -> GuildV {
        GuildV { channels: chan_views(self.channels@), next_id: self.next_id }
    }
}

impl ChannelV {
    /// The messages of this channel are sorted by identifier, and all
    /// identifiers were assigned before `next_id`.
    pub open spec fn wf(self, next_id: u64) -> bool {
        &&& forall|j: int, k: int|
            0 <= j < k < self.messages.len() ==> #[trigger] self.messages[j].id
                < #[trigger] self.messages[k].id
        &&& forall|j: int| 0 <= j < self.messages.len() ==> (#[trigger] self.messages[j]).id
            < next_id
    }

    /// The pinned messages, in stored (pin) order.
    pub open spec fn pins(self) -> Seq<MessageV> {
        pinned_of(self.messages)
    }

    /// The row-bearing messages: regular and not pinned.
    pub open spec fn data_messages(self) -> Seq<MessageV> {
        data_of(self.messages)
    }
}

/// Whether a message carries a row: regular and not pinned.
pub open spec fn is_data_msg(m: MessageV) -> bool {
    m.regular && !m.pinned
}

/// The pinned messages of a message list, in order.
pub open spec fn pinned_of(ms: Seq<MessageV>) -> Seq<MessageV>
    decreases ms.len(),
{
    if ms.len() == 0 {
        Seq::<MessageV>::empty()
    } else if ms[0].pinned {
        seq![ms[0]] + pinned_of(ms.skip(1))
    } else {
        pinned_of(ms.skip(1))
    }
}

/// The row-bearing messages of a message list, in order.
pub open spec fn data_of(ms: Seq<MessageV>) -> Seq<MessageV>
    decreases ms.len(),
{
    if ms.len() == 0 {
        Seq::<MessageV>::empty()
    } else if is_data_msg(ms[0]) {
        seq![ms[0]] + data_of(ms.skip(1))
    } else {
        data_of(ms.skip(1))
    }
}

/// Appending a message appends to the pins exactly when it is pinned.
pub proof fn lemma_pinned_of_push(ms: Seq<MessageV>, m: MessageV)
    ensures
        pinned_of(ms.push(m)) == pinned_of(ms) + (if m.pinned {
            seq![m]
        } else {
            Seq::<MessageV>::empty()
        }),
    decreases ms.len(),
{
    let w = ms.push(m);
    if ms.len() == 0 {
        assert(w[0] == m);
        assert(w.skip(1) =~= Seq::<MessageV>::empty());
        lemma_pinned_of_none(w.skip(1));
        assert(pinned_of(w.skip(1)) =~= Seq::<MessageV>::empty());
        lemma_pinned_of_none(ms);
        assert(pinned_of(ms) =~= Seq::<MessageV>::empty());
        if m.pinned {
            assert(pinned_of(w) =~= pinned_of(ms) + seq![m]);
        } else {
            assert(pinned_of(w) =~= pinned_of(ms) + Seq::<MessageV>::empty());
        }
    } else {
        assert(w[0] == ms[0]);
        assert(w.skip(1) =~= ms.skip(1).push(m));
        lemma_pinned_of_push(ms.skip(1), m);
        if ms[0].pinned {
            if m.pinned {
                assert(seq![ms[0]] + (pinned_of(ms.skip(1)) + seq![m]) =~= (seq![ms[0]]
                    + pinned_of(ms.skip(1))) + seq![m]);
            } else {
                assert(seq![ms[0]] + (pinned_of(ms.skip(1)) + Seq::<MessageV>::empty()) =~= (seq![
                    ms[0],
                ] + pinned_of(ms.skip(1))) + Seq::<MessageV>::empty());
            }
        }
    }
}

/// Without a pinned message there are no pins.
pub proof fn lemma_pinned_of_none(ms: Seq<MessageV>)
    requires
        forall|j: int| 0 <= j < ms.len() ==> !(#[trigger] ms[j]).pinned,
    ensures
        pinned_of(ms).len() == 0,
    decreases ms.len(),
{
    if ms.len() > 0 {
        assert(forall|j: int| 0 <= j < ms.skip(1).len() ==> #[trigger] ms.skip(1)[j] == ms[j + 1]);
        lemma_pinned_of_none(ms.skip(1));
    }
}

/// The first pin is the first pinned message.
pub proof fn lemma_pinned_of_first(ms: Seq<MessageV>, i: int)
    requires
        0 <= i < ms.len(),
        ms[i].pinned,
        forall|j: int| 0 <= j < i ==> !(#[trigger] ms[j]).pinned,
    ensures
        pinned_of(ms).len() >= 1,
        pinned_of(ms)[0] == ms[i],
    decreases ms.len(),
{
    assert(forall|j: int| 0 <= j < ms.skip(1).len() ==> #[trigger] ms.skip(1)[j] == ms[j + 1]);
    if i > 0 {
        lemma_pinned_of_first(ms.skip(1), i - 1);
    }
}

/// The first index of the message with identifier `id`, if any.
pub open spec fn find_msg(ms: Seq<MessageV>, id: u64) -> Option<int>
    decreases ms.len(),
{
    if ms.len() == 0 {
        Option::None
    } else if ms[0].id == id {
        Option::Some(0)
    } else {
        match find_msg(ms.skip(1), id) {
            Option::Some(i) => Option::Some(i + 1),
            Option::None => Option::None,
        }
    }
}

/// The first index of the channel whose (pre-lowercased) name is
/// `lname`, if any.
pub open spec fn find_chan(cs: Seq<ChannelV>, lname: Seq<u8>) -> Option<int>
    decreases cs.len(),
{
    if cs.len() == 0 {
        Option::None
    } else if cs[0].name == lname {
        Option::Some(0)
    } else {
        match find_chan(cs.skip(1), lname) {
            Option::Some(i) => Option::Some(i + 1),
            Option::None => Option::None,
        }
    }
}

/// What `find_msg` finds: the message with that identifier, at a
/// valid index, and nothing earlier carries it.
pub proof fn lemma_find_msg(ms: Seq<MessageV>, id: u64)
    ensures
        match find_msg(ms, id) {
            Option::Some(i) => {
                &&& 0 <= i < ms.len()
                &&& ms[i].id == id
                &&& forall|j: int| 0 <= j < i ==> (#[trigger] ms[j]).id != id
            },
            Option::None => forall|j: int| 0 <= j < ms.len() ==> (#[trigger] ms[j]).id != id,
        },
    decreases ms.len(),
{
    if ms.len() > 0 && ms[0].id != id {
        lemma_find_msg(ms.skip(1), id);
        let rest = ms.skip(1);
        assert(forall|j: int| 0 <= j < rest.len() ==> #[trigger] rest[j] == ms[j + 1]);
        match find_msg(rest, id) {
            Option::Some(i) => {
                assert forall|j: int| 0 <= j < i + 1 implies (#[trigger] ms[j]).id != id by {
                    if j > 0 {
                        assert(rest[j - 1].id != id);
                    }
                }
            },
            Option::None => {
                assert forall|j: int| 0 <= j < ms.len() implies (#[trigger] ms[j]).id != id by {
                    if j > 0 {
                        assert(rest[j - 1].id != id);
                    }
                }
            },
        }
    }
}

/// What `find_chan` finds: the first channel of that name.
pub proof fn lemma_find_chan(cs: Seq<ChannelV>, lname: Seq<u8>)
    ensures
        match find_chan(cs, lname) {
            Option::Some(i) => {
                &&& 0 <= i < cs.len()
                &&& cs[i].name == lname
                &&& forall|j: int| 0 <= j < i ==> (#[trigger] cs[j]).name != lname
            },
            Option::None => forall|j: int| 0 <= j < cs.len() ==> (#[trigger] cs[j]).name != lname,
        },
    decreases cs.len(),
{
    if cs.len() > 0 && cs[0].name != lname {
        lemma_find_chan(cs.skip(1), lname);
        let rest = cs.skip(1);
        assert(forall|j: int| 0 <= j < rest.len() ==> #[trigger] rest[j] == cs[j + 1]);
        match find_chan(rest, lname) {
            Option::Some(i) => {
                assert forall|j: int| 0 <= j < i + 1 implies (#[trigger] cs[j]).name != lname by {
                    if j > 0 {
                        assert(rest[j - 1].name != lname);
                    }
                }
            },
            Option::None => {
                assert forall|j: int| 0 <= j < cs.len() implies (#[trigger] cs[j]).name
                    != lname by {
                    if j > 0 {
                        assert(rest[j - 1].name != lname);
                    }
                }
            },
        }
    }
}

impl GuildV {
    /// Well-formedness of the modeled namespace: channels carry
    /// distinct identifiers and pre-lowercased names, and every
    /// message respects the identifier order.
    pub open spec fn wf(self) -> bool {
        &&& forall|i: int| 0 <= i < self.channels.len() ==> (#[trigger] self.channels[i]).wf(
            self.next_id,
        )
        &&& forall|i: int| 0 <= i < self.channels.len() ==> (#[trigger] self.channels[i]).id
            < self.next_id
        &&& forall|i: int, j: int|
            0 <= i < j < self.channels.len() ==> (#[trigger] self.channels[i]).id
                != (#[trigger] self.channels[j]).id
        &&& forall|i: int| 0 <= i < self.channels.len() ==> (#[trigger] self.channels[i]).name
            == lower(self.channels[i].name)
    }
}

/// Mapping to views commutes/// Mapping to views commutes with point updates.
pub proof fn lemma_msg_views_update(ms: Seq<Message>, i: int, m: Message)
    requires
        0 <= i < ms.len(),
    ensures
        msg_views(ms.update(i, m)) == msg_views(ms).update(i, m@),
{
    assert(msg_views(ms.update(i, m)) =~= msg_views(ms).update(i, m@));
}

/// Mapping to views commutes with appending one message.
pub proof fn lemma_msg_views_push(ms: Seq<Message>, m: Message)
    ensures
        msg_views(ms.push(m)) == msg_views(ms).push(m@),
{
    assert(msg_views(ms.push(m)) =~= msg_views(ms).push(m@));
}

/// Mapping to views commutes with removal.
pub proof fn lemma_msg_views_remove(ms: Seq<Message>, i: int)
    requires
        0 <= i < ms.len(),
    ensures
        msg_views(ms.remove(i)) == msg_views(ms).remove(i),
{
    assert(msg_views(ms.remove(i)) =~= msg_views(ms).remove(i));
}

/// Mapping channels to views commutes with point updates.
pub proof fn lemma_chan_views_update(cs: Seq<Channel>, i: int, c: Channel)
    requires
        0 <= i < cs.len(),
    ensures
        chan_views(cs.update(i, c)) == chan_views(cs).update(i, c@),
{
    assert(chan_views(cs.update(i, c)) =~= chan_views(cs).update(i, c@));
}

/// Mapping channels to views commutes with appending one channel.
pub proof fn lemma_chan_views_push(cs: Seq<Channel>, c: Channel)
    ensures
        chan_views(cs.push(c)) == chan_views(cs).push(c@),
{
    assert(chan_views(cs.push(c)) =~= chan_views(cs).push(c@));
}

/// Mapping channels to views commutes with removal.
pub proof fn lemma_chan_views_remove(cs: Seq<Channel>, i: int)
    requires
        0 <= i < cs.len(),
    ensures
        chan_views(cs.remove(i)) == chan_views(cs).remove(i),
{
    assert(chan_views(cs.remove(i)) =~= chan_views(cs).remove(i));
}

/// Whether two byte strings are equal.
pub fn bytes_eq(a: &[u8], b: &[u8]) -> (r: bool)
    ensures
        r == (a@ == b@),
{
    if a.len() != b.len() {
        return false;
    }
    let mut i: usize = 0;
    while i < a.len()
        invariant
            0 <= i <= a@.len(),
            a@.len() == b@.len(),
            forall|j: int| 0 <= j < i ==> a@[j] == #[trigger] b@[j],
        decreases a@.len() - i,
    {
        if a[i] != b[i] {
            return false;
        }
        i += 1;
    }
    assert(a@ =~= b@);
    true
}

impl Guild {
    /// The index of the channel whose name is `lname`, scanning the
    /// namespace in order, as the directory lookup does.
    pub fn find_channel(&self, lname: &[u8]) -> (r: Option<usize>)
        ensures
            match r {
                Option::Some(i) => find_chan(self@.channels, lname@) == Option::Some(i as int),
                Option::None => find_chan(self@.channels, lname@) is None,
            },
    {
        let mut i: usize = 0;
        while i < self.channels.len()
            invariant
                0 <= i <= self.channels@.len(),
                forall|j: int|
                    0 <= j < i ==> (#[trigger] chan_views(self.channels@)[j]).name != lname@,
            decreases self.channels@.len() - i,
        {
            if bytes_eq(self.channels[i].name.as_slice(), lname) {
                proof {
                    assert(chan_views(self.channels@)[i as int].name == lname@);
                    lemma_find_chan_prefix(self@.channels, lname@, i as int);
                }
                return Option::Some(i);
            }
            proof {
                assert(chan_views(self.channels@)[i as int].name != lname@);
            }
            i += 1;
        }
        proof {
            lemma_find_chan(self@.channels, lname@);
            if find_chan(self@.channels, lname@) is Some {
                let k = find_chan(self@.channels, lname@)->Some_0;
                assert((chan_views(self.channels@)[k]).name == lname@);
            }
        }
        Option::None
    }
}

/// If nothing before `i` carries the name and `cs[i]` does, the scan
/// finds exactly `i`.
pub proof fn lemma_find_chan_prefix(cs: Seq<ChannelV>, lname: Seq<u8>, i: int)
    requires
        0 <= i < cs.len(),
        cs[i].name == lname,
        forall|j: int| 0 <= j < i ==> (#[trigger] cs[j]).name != lname,
    ensures
        find_chan(cs, lname) == Option::Some(i),
    decreases i,
{
    if i == 0 {
    } else {
        assert(cs[0].name != lname);
        assert(forall|j: int| 0 <= j < cs.skip(1).len() ==> #[trigger] cs.skip(1)[j] == cs[j + 1]);
        lemma_find_chan_prefix(cs.skip(1), lname, i - 1);
    }
}

/// If nothing before `i` carries the identifier and `ms[i]` does, the
/// scan finds exactly `i`.
pub proof fn lemma_find_msg_prefix(ms: Seq<MessageV>, id: u64, i: int)
    requires
        0 <= i < ms.len(),
        ms[i].id == id,
        forall|j: int| 0 <= j < i ==> (#[trigger] ms[j]).id != id,
    ensures
        find_msg(ms, id) == Option::Some(i),
    decreases i,
{
    if i == 0 {
    } else {
        assert(ms[0].id != id);
        assert(forall|j: int| 0 <= j < ms.skip(1).len() ==> #[trigger] ms.skip(1)[j] == ms[j + 1]);
        lemma_find_msg_prefix(ms.skip(1), id, i - 1);
    }
}

impl Channel {
    /// The index of the message with identifier `id`, scanning the
    /// channel in stored order.
    pub fn find_message(&self, id: u64) -> (r: Option<usize>)
        ensures
            match r {
                Option::Some(i) => find_msg(self@.messages, id) == Option::Some(i as int),
                Option::None => find_msg(self@.messages, id) is None,
            },
    {
        let mut i: usize = 0;
        while i < self.messages.len()
            invariant
                0 <= i <= self.messages@.len(),
                forall|j: int|
                    0 <= j < i ==> (#[trigger] msg_views(self.messages@)[j]).id != id,
            decreases self.messages@.len() - i,
        {
            if self.messages[i].id == id {
                proof {
                    assert(msg_views(self.messages@)[i as int].id == id);
                    lemma_find_msg_prefix(self@.messages, id, i as int);
                }
                return Option::Some(i);
            }
            proof {
                assert(msg_views(self.messages@)[i as int].id != id);
            }
            i += 1;
        }
        proof {
            lemma_find_msg(self@.messages, id);
            if find_msg(self@.messages, id) is Some {
                let k = find_msg(self@.messages, id)->Some_0;
                assert((msg_views(self.messages@)[k]).id == id);
            }
        }
        Option::None
    }
}

} // verus!
