//! The pub/sub hub: one per server process. It owns the topic subscription
//! table and the outstanding-publication table, assigns sequence ids, fans
//! publications out to subscriber mailboxes, and in `Manual` ack mode
//! retries a publication until every subscriber acknowledged it or the
//! retry budget is spent.

use vstd::prelude::*;
use crate::message::AckMode;
use crate::table::{seq_remove_all, vec_remove_all};
use crate::util::bytes_eq;

verus! {

/// One subscription: at most one lives per `(client_id, topic)` pair.
pub struct Subscription {
    /// The subscribed connection.
    pub client_id: u64,
    /// The topic it listens to.
    pub topic: Vec<u8>,
}

/// Ghost mirror of [`Subscription`].
pub struct SpecSubscription {
    /// The subscribed connection.
    pub client_id: u64,
    /// The topic it listens to.
    pub topic: Seq<u8>,
}

impl View for Subscription {
    type V = SpecSubscription;

    open spec fn view(&self) -> SpecSubscription {
        SpecSubscription { client_id: self.client_id, topic: self.topic@ }
    }
}

impl DeepView for Subscription {
    type V = SpecSubscription;

    open spec fn deep_view(&self) -> SpecSubscription {
        self@
    }
}

/// One outstanding publication in `Manual` ack mode: it lives until every
/// pending subscriber acknowledged it or the retries are spent.
pub struct PubEntry {
    /// The sequence id the hub assigned.
    pub seq_id: u64,
    /// The topic it was published to.
    pub topic: Vec<u8>,
    /// The payload, shared by every delivery.
    pub content: Vec<u8>,
    /// The subscribers whose acknowledgement is still missing.
    pub pending: Vec<u64>,
    /// How many retries are left before the entry is retired.
    pub retries_left: u64,
}

/// Ghost mirror of [`PubEntry`].
pub struct SpecPubEntry {
    /// The sequence id the hub assigned.
    pub seq_id: u64,
    /// The topic it was published to.
    pub topic: Seq<u8>,
    /// The payload.
    pub content: Seq<u8>,
    /// The subscribers whose acknowledgement is still missing.
    pub pending: Seq<u64>,
    /// How many retries are left.
    pub retries_left: u64,
}

impl View for PubEntry {
    type V = SpecPubEntry;

    open spec fn view(&self) -> SpecPubEntry {
        SpecPubEntry {
            seq_id: self.seq_id,
            topic: self.topic@,
            content: self.content@,
            pending: self.pending@,
            retries_left: self.retries_left,
        }
    }
}

impl DeepView for PubEntry {
    type V = SpecPubEntry;

    open spec fn deep_view(&self) -> SpecPubEntry {
        self@
    }
}

/// What the hub is asked to do.
pub enum HubEvent {
    /// A client published `content` to `topic`.
    Publish { client_id: u64, msg_id: u64, topic: Vec<u8>, content: Vec<u8> },
    /// A client subscribed to `topic`; an earlier subscription of the same
    /// pair is replaced.
    Subscribe { client_id: u64, topic: Vec<u8> },
    /// A client dropped its subscription.
    Unsubscribe { client_id: u64, topic: Vec<u8> },
    /// A client acknowledged the publication `seq_id`.
    Ack { seq_id: u64, client_id: u64 },
    /// The retry timer of `seq_id` fired.
    Retry { seq_id: u64 },
    /// A connection closed; all its state is purged.
    Disconnect { client_id: u64 },
}

/// Ghost mirror of [`HubEvent`].
pub enum SpecHubEvent {
    /// A client published `content` to `topic`.
    Publish { client_id: u64, msg_id: u64, topic: Seq<u8>, content: Seq<u8> },
    /// A client subscribed to `topic`.
    Subscribe { client_id: u64, topic: Seq<u8> },
    /// A client dropped its subscription.
    Unsubscribe { client_id: u64, topic: Seq<u8> },
    /// A client acknowledged the publication `seq_id`.
    Ack { seq_id: u64, client_id: u64 },
    /// The retry timer of `seq_id` fired.
    Retry { seq_id: u64 },
    /// A connection closed.
    Disconnect { client_id: u64 },
}

impl View for HubEvent {
    type V = SpecHubEvent;

    open spec fn view(&self) -> SpecHubEvent {
        match self {
            HubEvent::Publish { client_id, msg_id, topic, content } => SpecHubEvent::Publish {
                client_id: *client_id,
                msg_id: *msg_id,
                topic: topic@,
                content: content@,
            },
            HubEvent::Subscribe { client_id, topic } => SpecHubEvent::Subscribe {
                client_id: *client_id,
                topic: topic@,
            },
            HubEvent::Unsubscribe { client_id, topic } => SpecHubEvent::Unsubscribe {
                client_id: *client_id,
                topic: topic@,
            },
            HubEvent::Ack { seq_id, client_id } => SpecHubEvent::Ack {
                seq_id: *seq_id,
                client_id: *client_id,
            },
            HubEvent::Retry { seq_id } => SpecHubEvent::Retry { seq_id: *seq_id },
            HubEvent::Disconnect { client_id } => SpecHubEvent::Disconnect {
                client_id: *client_id,
            },
        }
    }
}

impl DeepView for HubEvent {
    type V = SpecHubEvent;

    open spec fn deep_view(&self) -> SpecHubEvent {
        self@
    }
}

/// What the hub asks the surroundings to do: put a publication into one
/// subscriber's mailbox.
pub enum HubAction {
    /// Enqueue the publication on the broker mailbox of `client_id`.
    Deliver { client_id: u64, seq_id: u64, topic: Vec<u8>, content: Vec<u8> },
}

/// Ghost mirror of [`HubAction`].
pub enum SpecHubAction {
    /// Enqueue the publication on the broker mailbox of `client_id`.
    Deliver { client_id: u64, seq_id: u64, topic: Seq<u8>, content: Seq<u8> },
}

impl View for HubAction {
    type V = SpecHubAction;

    open spec fn view(&self) -> SpecHubAction {
        match self {
            HubAction::Deliver { client_id, seq_id, topic, content } => SpecHubAction::Deliver {
                client_id: *client_id,
                seq_id: *seq_id,
                topic: topic@,
                content: content@,
            },
        }
    }
}

impl DeepView for HubAction {
    type V = SpecHubAction;

    open spec fn deep_view(&self) -> SpecHubAction {
        self@
    }
}

/// The hub state.
pub struct Hub {
    /// The subscription table; at most one entry per `(client_id, topic)`.
    pub subs: Vec<Subscription>,
    /// The next sequence id to assign.
    pub next_seq: u64,
    /// Outstanding publications awaiting acknowledgement (`Manual` mode).
    pub entries: Vec<PubEntry>,
    /// The acknowledgement policy.
    pub ack_mode: AckMode,
    /// The retry budget a new publication starts with.
    pub max_retries: u64,
}

/// Ghost mirror of [`Hub`].
pub struct SpecHub {
    /// The subscription table.
    pub subs: Seq<SpecSubscription>,
    /// The next sequence id to assign.
    pub next_seq: u64,
    /// Outstanding publications awaiting acknowledgement.
    pub entries: Seq<SpecPubEntry>,
    /// The acknowledgement policy.
    pub ack_mode: AckMode,
    /// The retry budget a new publication starts with.
    pub max_retries: u64,
}

impl View for Hub {
    type V = SpecHub;

    open spec fn view(&self) -> SpecHub {
        SpecHub {
            subs: self.subs.deep_view(),
            next_seq: self.next_seq,
            entries: self.entries.deep_view(),
            ack_mode: self.ack_mode,
            max_retries: self.max_retries,
        }
    }
}

/// The clients subscribed to `topic`, in subscription-table order.
pub open spec fn subscribers_of(subs: Seq<SpecSubscription>, topic: Seq<u8>) -> Seq<u64>
    decreases subs.len(),
{
    if subs.len() == 0 {
        Seq::empty()
    } else if subs[0].topic == topic {
        seq![subs[0].client_id] + subscribers_of(subs.skip(1), topic)
    } else {
        subscribers_of(subs.skip(1), topic)
    }
}

/// The subscription table without the `(client_id, topic)` pair.
pub open spec fn subs_remove(
    subs: Seq<SpecSubscription>,
    client_id: u64,
    topic: Seq<u8>,
) -> Seq<SpecSubscription>
    decreases subs.len(),
{
    if subs.len() == 0 {
        Seq::empty()
    } else if subs[0].client_id == client_id && subs[0].topic == topic {
        subs_remove(subs.skip(1), client_id, topic)
    } else {
        seq![subs[0]] + subs_remove(subs.skip(1), client_id, topic)
    }
}

/// The subscription table without every subscription of `client_id`.
pub open spec fn subs_purge(subs: Seq<SpecSubscription>, client_id: u64) -> Seq<SpecSubscription>
    decreases subs.len(),
{
    if subs.len() == 0 {
        Seq::empty()
    } else if subs[0].client_id == client_id {
        subs_purge(subs.skip(1), client_id)
    } else {
        seq![subs[0]] + subs_purge(subs.skip(1), client_id)
    }
}

/// Index of the outstanding entry for `seq_id`, if any.
pub open spec fn find_entry(entries: Seq<SpecPubEntry>, seq_id: u64) -> Option<int>
    decreases entries.len(),
{
    if entries.len() == 0 {
        None
    } else if entries[0].seq_id == seq_id {
        Some(0)
    } else {
        match find_entry(entries.skip(1), seq_id) {
            None => None,
            Some(i) => Some(i + 1),
        }
    }
}

/// The entry table after `client_id` disappears: it leaves every pending
/// set, and entries with nobody left pending are dropped.
pub open spec fn entries_purge(
    entries: Seq<SpecPubEntry>,
    client_id: u64,
) -> Seq<SpecPubEntry>
    decreases entries.len(),
{
    if entries.len() == 0 {
        Seq::empty()
    } else {
        let rest = entries_purge(entries.skip(1), client_id);
        let p = seq_remove_all(entries[0].pending, client_id);
        if p.len() == 0 {
            rest
        } else {
            seq![SpecPubEntry { pending: p, ..entries[0] }] + rest
        }
    }
}

/// One delivery per client, in the given order.
pub open spec fn deliver_all(
    clients: Seq<u64>,
    seq_id: u64,
    topic: Seq<u8>,
    content: Seq<u8>,
) -> Seq<SpecHubAction> {
    clients.map_values(
        |c: u64| SpecHubAction::Deliver { client_id: c, seq_id, topic, content },
    )
}

/// How the hub answers one event: the next state and the deliveries it
/// fans out. This is the whole behaviour of the hub; the executable
/// methods below implement it exactly.
pub open spec fn hub_step(s: SpecHub, e: SpecHubEvent) -> (SpecHub, Seq<SpecHubAction>) {
    match e {
        SpecHubEvent::Publish { client_id, msg_id, topic, content } => {
            if s.next_seq == u64::MAX {
                (s, Seq::empty())
            } else {
                let seq_id = s.next_seq;
                let targets = subscribers_of(s.subs, topic);
                let entries = if s.ack_mode is Manual && targets.len() > 0 {
                    s.entries.push(
                        SpecPubEntry {
                            seq_id,
                            topic,
                            content,
                            pending: targets,
                            retries_left: s.max_retries,
                        },
                    )
                } else {
                    s.entries
                };
                (
                    SpecHub { next_seq: (s.next_seq + 1) as u64, entries, ..s },
                    deliver_all(targets, seq_id, topic, content),
                )
            }
        },
        SpecHubEvent::Subscribe { client_id, topic } => (
            SpecHub {
                subs: subs_remove(s.subs, client_id, topic).push(
                    SpecSubscription { client_id, topic },
                ),
                ..s
            },
            Seq::empty(),
        ),
        SpecHubEvent::Unsubscribe { client_id, topic } => (
            SpecHub { subs: subs_remove(s.subs, client_id, topic), ..s },
            Seq::empty(),
        ),
        SpecHubEvent::Ack { seq_id, client_id } => {
            match find_entry(s.entries, seq_id) {
                None => (s, Seq::empty()),
                Some(i) => {
                    let p = seq_remove_all(s.entries[i].pending, client_id);
                    if p.len() == 0 {
                        (SpecHub { entries: s.entries.remove(i), ..s }, Seq::empty())
                    } else {
                        (
                            SpecHub {
                                entries: s.entries.update(
                                    i,
                                    SpecPubEntry { pending: p, ..s.entries[i] },
                                ),
                                ..s
                            },
                            Seq::empty(),
                        )
                    }
                },
            }
        },
        SpecHubEvent::Retry { seq_id } => {
            match find_entry(s.entries, seq_id) {
                None => (s, Seq::empty()),
                Some(i) => {
                    let entry = s.entries[i];
                    if entry.retries_left == 0 {
                        (SpecHub { entries: s.entries.remove(i), ..s }, Seq::empty())
                    } else {
                        (
                            SpecHub {
                                entries: s.entries.update(
                                    i,
                                    SpecPubEntry {
                                        retries_left: (entry.retries_left - 1) as u64,
                                        ..entry
                                    },
                                ),
                                ..s
                            },
                            deliver_all(entry.pending, entry.seq_id, entry.topic, entry.content),
                        )
                    }
                },
            }
        },
        SpecHubEvent::Disconnect { client_id } => (
            SpecHub {
                subs: subs_purge(s.subs, client_id),
                entries: entries_purge(s.entries, client_id),
                ..s
            },
            Seq::empty(),
        ),
    }
}

impl Hub {
    /// A hub with no subscriptions and no outstanding publications.
    pub fn new(ack_mode: AckMode, max_retries: u64) -> (r: Hub)
        ensures
            r@.subs.len() == 0,
            r@.entries.len() == 0,
            r@.next_seq == 0,
            r@.ack_mode == ack_mode,
            r@.max_retries == max_retries,
            hub_wf(r@),
    {
        let h = Hub {
            subs: Vec::new(),
            next_seq: 0,
            entries: Vec::new(),
            ack_mode,
            max_retries,
        };
        proof {
            assert(h@.subs =~= Seq::<SpecSubscription>::empty());
            assert(h@.entries =~= Seq::<SpecPubEntry>::empty());
            assert forall|c: u64, t: Seq<u8>| #[trigger] count_pair(h@.subs, c, t) <= 1 by {
                assert(count_pair(h@.subs, c, t) == 0);
            }
        }
        h
    }

    /// Answer one event, as [`hub_step`] describes.
    pub fn op(&mut self, e: HubEvent) -> (actions: Vec<HubAction>)
        ensures
            final(self)@ == hub_step(old(self)@, e@).0,
            actions.deep_view() == hub_step(old(self)@, e@).1,
    {
        match e {
            HubEvent::Publish { client_id, msg_id, topic, content } => {
                self.handle_publish(client_id, msg_id, topic, content)
            },
            HubEvent::Subscribe { client_id, topic } => {
                self.handle_subscribe(client_id, topic);
                Vec::new()
            },
            HubEvent::Unsubscribe { client_id, topic } => {
                self.handle_unsubscribe(client_id, topic);
                Vec::new()
            },
            HubEvent::Ack { seq_id, client_id } => {
                self.handle_ack(seq_id, client_id);
                Vec::new()
            },
            HubEvent::Retry { seq_id } => self.handle_retry(seq_id),
            HubEvent::Disconnect { client_id } => {
                self.handle_disconnect(client_id);
                Vec::new()
            },
        }
    }

    /// The clients subscribed to `topic`, in table order.
    fn subscribers(&self, topic: &[u8]) -> (r: Vec<u64>)
        ensures
            r@ == subscribers_of(self@.subs, topic@),
    {
        let mut out: Vec<u64> = Vec::new();
        let mut i: usize = 0;
        while i < self.subs.len()
            invariant
                i <= self.subs@.len(),
                out@ == subscribers_of(self.subs.deep_view().take(i as int), topic@),
            decreases self.subs@.len() - i,
        {
            let ghost pre = self.subs.deep_view().take(i as int);
            let ghost one = seq![self.subs.deep_view()[i as int]];
            proof {
                assert(self.subs.deep_view().take(i + 1 as int) =~= pre + one);
                lemma_subscribers_of_append(pre, one, topic@);
                assert(one.skip(1) =~= Seq::<SpecSubscription>::empty());
                assert(subscribers_of(Seq::<SpecSubscription>::empty(), topic@)
                    =~= Seq::<u64>::empty());
            }
            if bytes_eq(self.subs[i].topic.as_slice(), topic) {
                out.push(self.subs[i].client_id);
                proof {
                    assert(subscribers_of(one, topic@) =~= seq![one[0].client_id]);
                    assert(out@ =~= subscribers_of(pre + one, topic@));
                }
            } else {
                proof {
                    assert(subscribers_of(one, topic@) =~= Seq::<u64>::empty());
                    assert(out@ =~= subscribers_of(pre + one, topic@));
                }
            }
            i = i + 1;
        }
        proof {
            assert(self.subs.deep_view().take(self.subs@.len() as int)
                =~= self.subs.deep_view());
        }
        out
    }

    /// Fan a publication out: one delivery per target, in order.
    fn deliver(targets: &Vec<u64>, seq_id: u64, topic: &Vec<u8>, content: &Vec<u8>) -> (r: Vec<
        HubAction,
    >)
        ensures
            r.deep_view() == deliver_all(targets@, seq_id, topic@, content@),
    {
        let mut out: Vec<HubAction> = Vec::new();
        let mut i: usize = 0;
        while i < targets.len()
            invariant
                i <= targets@.len(),
                out.deep_view() == deliver_all(targets@.take(i as int), seq_id, topic@, content@),
            decreases targets@.len() - i,
        {
            let ghost prev = out.deep_view();
            let ghost prev_raw = out@;
            let act = HubAction::Deliver {
                client_id: targets[i],
                seq_id,
                topic: crate::util::copy_bytes(topic),
                content: crate::util::copy_bytes(content),
            };
            proof {
                assert(act@ == (SpecHubAction::Deliver {
                    client_id: targets@[i as int],
                    seq_id,
                    topic: topic@,
                    content: content@,
                }));
            }
            out.push(act);
            proof {
                let next = deliver_all(targets@.take(i + 1 as int), seq_id, topic@, content@);
                assert(out.deep_view().len() == prev.len() + 1);
                assert(next.len() == i + 1);
                assert(prev.len() == i);
                assert forall|k: int| 0 <= k < i implies out.deep_view()[k] == prev[k] by {
                    assert(out@ == prev_raw.push(act));
                    assert(out@[k] == prev_raw[k]);
                }
                assert(out.deep_view()[i as int] == act@);
                assert forall|k: int| 0 <= k < i + 1 implies out.deep_view()[k] == next[k] by {
                    assert(targets@.take(i + 1 as int)[k] == targets@[k]);
                    if k < i {
                        assert(targets@.take(i as int)[k] == targets@[k]);
                        assert(prev[k] == deliver_all(
                            targets@.take(i as int),
                            seq_id,
                            topic@,
                            content@,
                        )[k]);
                    }
                }
                assert(out.deep_view() =~= next);
            }
            i = i + 1;
        }
        proof {
            assert(targets@.take(targets@.len() as int) =~= targets@);
        }
        out
    }

    /// A publish: assign the next sequence id, fan out to the topic's
    /// subscribers, and in `Manual` mode remember who still owes an ack.
    fn handle_publish(
        &mut self,
        client_id: u64,
        msg_id: u64,
        topic: Vec<u8>,
        content: Vec<u8>,
    ) -> (actions: Vec<HubAction>)
        ensures
            final(self)@ == hub_step(
                old(self)@,
                SpecHubEvent::Publish {
                    client_id,
                    msg_id,
                    topic: topic@,
                    content: content@,
                },
            ).0,
            actions.deep_view() == hub_step(
                old(self)@,
                SpecHubEvent::Publish {
                    client_id,
                    msg_id,
                    topic: topic@,
                    content: content@,
                },
            ).1,
    {
        if self.next_seq == u64::MAX {
            return Vec::new();
        }
        let seq_id = self.next_seq;
        let targets = self.subscribers(topic.as_slice());
        let actions = Self::deliver(&targets, seq_id, &topic, &content);
        let manual = match self.ack_mode {
            AckMode::Manual => true,
            _ => false,
        };
        if manual && targets.len() > 0 {
            let entry = PubEntry {
                seq_id,
                topic,
                content,
                pending: targets,
                retries_left: self.max_retries,
            };
            self.entries.push(entry);
            proof {
                assert(self.entries.deep_view()
                    =~= old(self).entries.deep_view().push(entry@));
            }
        }
        self.next_seq = self.next_seq + 1;
        actions
    }

    /// A subscribe: replace any subscription of the same pair, so that at
    /// most one lives per `(client_id, topic)` — which
    /// [`lemma_subscribe_replaces`] states in general.
    pub fn handle_subscribe(&mut self, client_id: u64, topic: Vec<u8>)
        ensures
            final(self)@ == hub_step(
                old(self)@,
                SpecHubEvent::Subscribe { client_id, topic: topic@ },
            ).0,
    {
        self.remove_subscription(client_id, topic.as_slice());
        let sub = Subscription { client_id, topic };
        self.subs.push(sub);
        proof {
            assert(self.subs.deep_view()
                =~= subs_remove(old(self)@.subs, client_id, sub@.topic).push(sub@));
        }
    }

    /// An unsubscribe: drop the pair if present.
    fn handle_unsubscribe(&mut self, client_id: u64, topic: Vec<u8>)
        ensures
            final(self)@ == hub_step(
                old(self)@,
                SpecHubEvent::Unsubscribe { client_id, topic: topic@ },
            ).0,
    {
        self.remove_subscription(client_id, topic.as_slice());
    }

    /// Remove every subscription of the `(client_id, topic)` pair.
    fn remove_subscription(&mut self, client_id: u64, topic: &[u8])
        ensures
            final(self).subs.deep_view() == subs_remove(old(self).subs.deep_view(), client_id, topic@),
            final(self).next_seq == old(self).next_seq,
            final(self).entries == old(self).entries,
            final(self).ack_mode == old(self).ack_mode,
            final(self).max_retries == old(self).max_retries,
    {
        let n = self.subs.len();
        let mut out: Vec<Subscription> = Vec::new();
        let mut i: usize = 0;
        while i < self.subs.len()
            invariant
                i <= self.subs@.len(),
                self.subs == old(self).subs,
                out.deep_view() == subs_remove(
                    self.subs.deep_view().take(i as int),
                    client_id,
                    topic@,
                ),
            decreases self.subs@.len() - i,
        {
            let ghost pre = self.subs.deep_view().take(i as int);
            let ghost one = seq![self.subs.deep_view()[i as int]];
            proof {
                assert(self.subs.deep_view().take(i + 1 as int) =~= pre + one);
                lemma_subs_remove_append(pre, one, client_id, topic@);
                assert(one.skip(1) =~= Seq::<SpecSubscription>::empty());
                assert(subs_remove(Seq::<SpecSubscription>::empty(), client_id, topic@)
                    =~= Seq::<SpecSubscription>::empty());
            }
            let matches_pair = self.subs[i].client_id == client_id
                && bytes_eq(self.subs[i].topic.as_slice(), topic);
            if !matches_pair {
                let entry = Subscription {
                    client_id: self.subs[i].client_id,
                    topic: crate::util::copy_bytes(&self.subs[i].topic),
                };
                proof {
                    assert(entry@ == one[0]);
                    assert(subs_remove(one, client_id, topic@) =~= one);
                }
                out.push(entry);
                proof {
                    assert(out.deep_view() =~= subs_remove(pre + one, client_id, topic@));
                }
            } else {
                proof {
                    assert(subs_remove(one, client_id, topic@)
                        =~= Seq::<SpecSubscription>::empty());
                    assert(out.deep_view() =~= subs_remove(pre + one, client_id, topic@));
                }
            }
            i = i + 1;
        }
        proof {
            assert(self.subs.deep_view().take(self.subs@.len() as int)
                =~= self.subs.deep_view());
        }
        self.subs = out;
    }

    /// Find the outstanding entry for `seq_id`.
    fn find_entry_index(&self, seq_id: u64) -> (r: Option<usize>)
        ensures
            match r {
                Some(i) => find_entry(self.entries.deep_view(), seq_id) == Some(i as int)
                    && i < self.entries@.len(),
                None => find_entry(self.entries.deep_view(), seq_id) is None,
            },
    {
        let mut i: usize = 0;
        proof {
            assert(self.entries.deep_view().skip(0) =~= self.entries.deep_view());
        }
        loop
            invariant
                i <= self.entries@.len(),
                match find_entry(self.entries.deep_view().skip(i as int), seq_id) {
                    None => find_entry(self.entries.deep_view(), seq_id) is None,
                    Some(k) => find_entry(self.entries.deep_view(), seq_id) == Some(k + i),
                },
            decreases self.entries@.len() - i,
        {
            if i >= self.entries.len() {
                proof {
                    assert(self.entries.deep_view().skip(i as int)
                        =~= Seq::<SpecPubEntry>::empty());
                }
                return None;
            }
            proof {
                assert(self.entries.deep_view().skip(i as int)[0]
                    == self.entries.deep_view()[i as int]);
                assert(self.entries.deep_view().skip(i as int).skip(1)
                    =~= self.entries.deep_view().skip(i + 1 as int));
            }
            if self.entries[i].seq_id == seq_id {
                return Some(i);
            }
            i = i + 1;
        }
    }

    /// An ack: take `client_id` off the entry's pending set; the entry is
    /// dropped once nobody is pending. An ack for an unknown or already
    /// collected `seq_id` does nothing.
    fn handle_ack(&mut self, seq_id: u64, client_id: u64)
        ensures
            final(self)@ == hub_step(
                old(self)@,
                SpecHubEvent::Ack { seq_id, client_id },
            ).0,
    {
        let i = match self.find_entry_index(seq_id) {
            Some(i) => i,
            None => {
                return ;
            },
        };
        let mut entry = self.entries.remove(i);
        let pending = vec_remove_all(&entry.pending, client_id);
        if pending.len() > 0 {
            entry.pending = pending;
            self.entries.insert(i, entry);
            proof {
                assert(self.entries.deep_view() =~= old(self).entries.deep_view().update(
                    i as int,
                    SpecPubEntry {
                        pending: seq_remove_all(
                            old(self).entries.deep_view()[i as int].pending,
                            client_id,
                        ),
                        ..old(self).entries.deep_view()[i as int]
                    },
                ));
            }
        } else {
            proof {
                assert(self.entries.deep_view()
                    =~= old(self).entries.deep_view().remove(i as int));
            }
        }
    }

    /// A retry timer: with budget left, fan the entry out to whoever is
    /// still pending and spend one retry; with none, retire the entry.
    fn handle_retry(&mut self, seq_id: u64) -> (actions: Vec<HubAction>)
        ensures
            final(self)@ == hub_step(old(self)@, SpecHubEvent::Retry { seq_id }).0,
            actions.deep_view() == hub_step(old(self)@, SpecHubEvent::Retry { seq_id }).1,
    {
        let i = match self.find_entry_index(seq_id) {
            Some(i) => i,
            None => {
                return Vec::new();
            },
        };
        let mut entry = self.entries.remove(i);
        if entry.retries_left == 0 {
            proof {
                assert(self.entries.deep_view()
                    =~= old(self).entries.deep_view().remove(i as int));
            }
            return Vec::new();
        }
        let actions = Self::deliver(&entry.pending, entry.seq_id, &entry.topic, &entry.content);
        entry.retries_left = entry.retries_left - 1;
        self.entries.insert(i, entry);
        proof {
            let ghost e0 = old(self).entries.deep_view()[i as int];
            assert(self.entries.deep_view() =~= old(self).entries.deep_view().update(
                i as int,
                SpecPubEntry { retries_left: (e0.retries_left - 1) as u64, ..e0 },
            ));
        }
        actions
    }

    /// A disconnect: every subscription of the client goes, and it leaves
    /// every pending set; entries with nobody left pending are dropped.
    fn handle_disconnect(&mut self, client_id: u64)
        ensures
            final(self)@ == hub_step(old(self)@, SpecHubEvent::Disconnect { client_id }).0,
    {
        self.purge_subs(client_id);
        self.purge_entries(client_id);
    }

    /// Remove every subscription of `client_id`.
    fn purge_subs(&mut self, client_id: u64)
        ensures
            final(self).subs.deep_view() == subs_purge(old(self).subs.deep_view(), client_id),
            final(self).next_seq == old(self).next_seq,
            final(self).entries == old(self).entries,
            final(self).ack_mode == old(self).ack_mode,
            final(self).max_retries == old(self).max_retries,
    {
        let mut out: Vec<Subscription> = Vec::new();
        let mut i: usize = 0;
        while i < self.subs.len()
            invariant
                i <= self.subs@.len(),
                self.subs == old(self).subs,
                out.deep_view() == subs_purge(self.subs.deep_view().take(i as int), client_id),
            decreases self.subs@.len() - i,
        {
            let ghost pre = self.subs.deep_view().take(i as int);
            let ghost one = seq![self.subs.deep_view()[i as int]];
            proof {
                assert(self.subs.deep_view().take(i + 1 as int) =~= pre + one);
                lemma_subs_purge_append(pre, one, client_id);
                assert(one.skip(1) =~= Seq::<SpecSubscription>::empty());
                assert(subs_purge(Seq::<SpecSubscription>::empty(), client_id)
                    =~= Seq::<SpecSubscription>::empty());
            }
            if self.subs[i].client_id != client_id {
                let entry = Subscription {
                    client_id: self.subs[i].client_id,
                    topic: crate::util::copy_bytes(&self.subs[i].topic),
                };
                proof {
                    assert(entry@ == one[0]);
                    assert(subs_purge(one, client_id) =~= one);
                }
                out.push(entry);
                proof {
                    assert(out.deep_view() =~= subs_purge(pre + one, client_id));
                }
            } else {
                proof {
                    assert(subs_purge(one, client_id) =~= Seq::<SpecSubscription>::empty());
                    assert(out.deep_view() =~= subs_purge(pre + one, client_id));
                }
            }
            i = i + 1;
        }
        proof {
            assert(self.subs.deep_view().take(self.subs@.len() as int)
                =~= self.subs.deep_view());
        }
        self.subs = out;
    }

    /// Take `client_id` off every pending set, dropping emptied entries.
    fn purge_entries(&mut self, client_id: u64)
        ensures
            final(self).entries.deep_view() == entries_purge(
                old(self).entries.deep_view(),
                client_id,
            ),
            final(self).next_seq == old(self).next_seq,
            final(self).subs == old(self).subs,
            final(self).ack_mode == old(self).ack_mode,
            final(self).max_retries == old(self).max_retries,
    {
        let mut out: Vec<PubEntry> = Vec::new();
        let mut i: usize = 0;
        while i < self.entries.len()
            invariant
                i <= self.entries@.len(),
                self.entries == old(self).entries,
                out.deep_view() == entries_purge(
                    self.entries.deep_view().take(i as int),
                    client_id,
                ),
            decreases self.entries@.len() - i,
        {
            let ghost pre = self.entries.deep_view().take(i as int);
            let ghost one = seq![self.entries.deep_view()[i as int]];
            proof {
                assert(self.entries.deep_view().take(i + 1 as int) =~= pre + one);
                lemma_entries_purge_append(pre, one, client_id);
                assert(one.skip(1) =~= Seq::<SpecPubEntry>::empty());
                assert(entries_purge(Seq::<SpecPubEntry>::empty(), client_id)
                    =~= Seq::<SpecPubEntry>::empty());
            }
            let pending = vec_remove_all(&self.entries[i].pending, client_id);
            if pending.len() > 0 {
                let entry = PubEntry {
                    seq_id: self.entries[i].seq_id,
                    topic: crate::util::copy_bytes(&self.entries[i].topic),
                    content: crate::util::copy_bytes(&self.entries[i].content),
                    pending,
                    retries_left: self.entries[i].retries_left,
                };
                proof {
                    assert(entry@ == SpecPubEntry {
                        pending: seq_remove_all(one[0].pending, client_id),
                        ..one[0]
                    });
                    assert(entries_purge(one, client_id) =~= seq![entry@]);
                }
                out.push(entry);
                proof {
                    assert(out.deep_view() =~= entries_purge(pre + one, client_id));
                }
            } else {
                proof {
                    assert(entries_purge(one, client_id) =~= Seq::<SpecPubEntry>::empty());
                    assert(out.deep_view() =~= entries_purge(pre + one, client_id));
                }
            }
            i = i + 1;
        }
        proof {
            assert(self.entries.deep_view().take(self.entries@.len() as int)
                =~= self.entries.deep_view());
        }
        self.entries = out;
    }
}

/// Fan-out membership distributes over concatenation.
pub proof fn lemma_subscribers_of_append(a: Seq<SpecSubscription>, b: Seq<SpecSubscription>, topic: Seq<u8>)
    ensures
        subscribers_of(a + b, topic) == subscribers_of(a, topic) + subscribers_of(b, topic),
    decreases a.len(),
{
    if a.len() == 0 {
        assert(a + b =~= b);
        assert(subscribers_of(a, topic) + subscribers_of(b, topic)
            =~= subscribers_of(b, topic));
    } else {
        assert((a + b).skip(1) =~= a.skip(1) + b);
        lemma_subscribers_of_append(a.skip(1), b, topic);
        if a[0].topic == topic {
            assert(seq![a[0].client_id] + (subscribers_of(a.skip(1), topic)
                + subscribers_of(b, topic))
                =~= (seq![a[0].client_id] + subscribers_of(a.skip(1), topic))
                    + subscribers_of(b, topic));
        }
    }
}

/// Pair removal distributes over concatenation.
pub proof fn lemma_subs_remove_append(
    a: Seq<SpecSubscription>,
    b: Seq<SpecSubscription>,
    client_id: u64,
    topic: Seq<u8>,
)
    ensures
        subs_remove(a + b, client_id, topic) == subs_remove(a, client_id, topic) + subs_remove(
            b,
            client_id,
            topic,
        ),
    decreases a.len(),
{
    if a.len() == 0 {
        assert(a + b =~= b);
        assert(subs_remove(a, client_id, topic) + subs_remove(b, client_id, topic)
            =~= subs_remove(b, client_id, topic));
    } else {
        assert((a + b).skip(1) =~= a.skip(1) + b);
        lemma_subs_remove_append(a.skip(1), b, client_id, topic);
        if !(a[0].client_id == client_id && a[0].topic == topic) {
            assert(seq![a[0]] + (subs_remove(a.skip(1), client_id, topic)
                + subs_remove(b, client_id, topic))
                =~= (seq![a[0]] + subs_remove(a.skip(1), client_id, topic))
                    + subs_remove(b, client_id, topic));
        }
    }
}

/// Client purge distributes over concatenation.
pub proof fn lemma_subs_purge_append(
    a: Seq<SpecSubscription>,
    b: Seq<SpecSubscription>,
    client_id: u64,
)
    ensures
        subs_purge(a + b, client_id) == subs_purge(a, client_id) + subs_purge(b, client_id),
    decreases a.len(),
{
    if a.len() == 0 {
        assert(a + b =~= b);
        assert(subs_purge(a, client_id) + subs_purge(b, client_id)
            =~= subs_purge(b, client_id));
    } else {
        assert((a + b).skip(1) =~= a.skip(1) + b);
        lemma_subs_purge_append(a.skip(1), b, client_id);
        if a[0].client_id != client_id {
            assert(seq![a[0]] + (subs_purge(a.skip(1), client_id) + subs_purge(b, client_id))
                =~= (seq![a[0]] + subs_purge(a.skip(1), client_id)) + subs_purge(b, client_id));
        }
    }
}

/// Entry purge distributes over concatenation.
pub proof fn lemma_entries_purge_append(
    a: Seq<SpecPubEntry>,
    b: Seq<SpecPubEntry>,
    client_id: u64,
)
    ensures
        entries_purge(a + b, client_id) == entries_purge(a, client_id) + entries_purge(
            b,
            client_id,
        ),
    decreases a.len(),
{
    if a.len() == 0 {
        assert(a + b =~= b);
        assert(entries_purge(a, client_id) + entries_purge(b, client_id)
            =~= entries_purge(b, client_id));
    } else {
        assert((a + b).skip(1) =~= a.skip(1) + b);
        lemma_entries_purge_append(a.skip(1), b, client_id);
        let p = seq_remove_all(a[0].pending, client_id);
        if p.len() > 0 {
            assert(seq![SpecPubEntry { pending: p, ..a[0] }] + (entries_purge(
                a.skip(1),
                client_id,
            ) + entries_purge(b, client_id))
                =~= (seq![SpecPubEntry { pending: p, ..a[0] }] + entries_purge(
                a.skip(1),
                client_id,
            )) + entries_purge(b, client_id));
        }
    }
}


/// How many subscriptions of the `(client_id, topic)` pair the table holds.
pub open spec fn count_pair(subs: Seq<SpecSubscription>, client_id: u64, topic: Seq<u8>) -> int
    decreases subs.len(),
{
    if subs.len() == 0 {
        0
    } else {
        (if subs[0].client_id == client_id && subs[0].topic == topic {
            1int
        } else {
            0int
        }) + count_pair(subs.skip(1), client_id, topic)
    }
}

/// Pair counting distributes over concatenation.
proof fn lemma_count_pair_append(
    a: Seq<SpecSubscription>,
    b: Seq<SpecSubscription>,
    client_id: u64,
    topic: Seq<u8>,
)
    ensures
        count_pair(a + b, client_id, topic) == count_pair(a, client_id, topic) + count_pair(
            b,
            client_id,
            topic,
        ),
    decreases a.len(),
{
    if a.len() == 0 {
        assert(a + b =~= b);
    } else {
        assert((a + b).skip(1) =~= a.skip(1) + b);
        lemma_count_pair_append(a.skip(1), b, client_id, topic);
    }
}

/// Removal takes a pair's count to zero and leaves every other count.
proof fn lemma_subs_remove_counts(
    subs: Seq<SpecSubscription>,
    client_id: u64,
    topic: Seq<u8>,
)
    ensures
        count_pair(subs_remove(subs, client_id, topic), client_id, topic) == 0,
        forall|c2: u64, t2: Seq<u8>| !(c2 == client_id && t2 == topic) ==> count_pair(
            subs_remove(subs, client_id, topic),
            c2,
            t2,
        ) == count_pair(subs, c2, t2),
    decreases subs.len(),
{
    if subs.len() > 0 {
        lemma_subs_remove_counts(subs.skip(1), client_id, topic);
        let r1 = subs_remove(subs.skip(1), client_id, topic);
        if !(subs[0].client_id == client_id && subs[0].topic == topic) {
            assert((seq![subs[0]] + r1).skip(1) =~= r1);
        }
        assert forall|c2: u64, t2: Seq<u8>| !(c2 == client_id && t2 == topic) implies count_pair(
            subs_remove(subs, client_id, topic),
            c2,
            t2,
        ) == count_pair(subs, c2, t2) by {
            assert(count_pair(r1, c2, t2) == count_pair(subs.skip(1), c2, t2));
            if !(subs[0].client_id == client_id && subs[0].topic == topic) {
                assert((seq![subs[0]] + r1).skip(1) =~= r1);
                assert((seq![subs[0]] + r1)[0] == subs[0]);
            }
        }
    }
}

/// Subscribing twice to the same topic replaces the first subscription:
/// after any subscribe, the hub holds exactly one subscription of that
/// `(client, topic)` pair, and every other pair is untouched.
pub proof fn lemma_subscribe_replaces(s: SpecHub, client_id: u64, topic: Seq<u8>)
    ensures
        ({
            let s1 = hub_step(s, SpecHubEvent::Subscribe { client_id, topic }).0;
            &&& count_pair(s1.subs, client_id, topic) == 1
            &&& forall|c2: u64, t2: Seq<u8>| !(c2 == client_id && t2 == topic) ==> count_pair(
                s1.subs,
                c2,
                t2,
            ) == count_pair(s.subs, c2, t2)
        }),
{
    let removed = subs_remove(s.subs, client_id, topic);
    let added = SpecSubscription { client_id, topic };
    lemma_subs_remove_counts(s.subs, client_id, topic);
    assert(removed.push(added) =~= removed + seq![added]);
    lemma_count_pair_append(removed, seq![added], client_id, topic);
    assert(seq![added].skip(1) =~= Seq::<SpecSubscription>::empty());
    assert(count_pair(Seq::<SpecSubscription>::empty(), client_id, topic) == 0);
    assert(count_pair(seq![added], client_id, topic) == 1);
    assert forall|c2: u64, t2: Seq<u8>| !(c2 == client_id && t2 == topic) implies count_pair(
        removed.push(added),
        c2,
        t2,
    ) == count_pair(s.subs, c2, t2) by {
        lemma_count_pair_append(removed, seq![added], c2, t2);
        assert(count_pair(Seq::<SpecSubscription>::empty(), c2, t2) == 0);
        assert(count_pair(seq![added], c2, t2) == 0);
    }
}

/// Everyone in the table under a topic is in the fan-out list.
proof fn lemma_subscribers_complete(subs: Seq<SpecSubscription>, topic: Seq<u8>, j: int)
    requires
        0 <= j < subs.len(),
        subs[j].topic == topic,
    ensures
        subscribers_of(subs, topic).contains(subs[j].client_id),
    decreases subs.len(),
{
    if j == 0 {
        assert(subscribers_of(subs, topic)[0] == subs[0].client_id);
    } else {
        lemma_subscribers_complete(subs.skip(1), topic, j - 1);
        let r1 = subscribers_of(subs.skip(1), topic);
        let k = choose|k: int| 0 <= k < r1.len() && r1[k] == subs[j].client_id;
        if subs[0].topic == topic {
            assert(subscribers_of(subs, topic)[k + 1] == subs[j].client_id);
        }
    }
}

/// A subscriber registered before a publish sees that publish: the accepted
/// publish fans out one delivery, with the assigned sequence id and the
/// payload, to every client subscribed to the topic when it arrives.
pub proof fn lemma_publish_reaches_subscribers(
    s: SpecHub,
    client_id: u64,
    msg_id: u64,
    topic: Seq<u8>,
    content: Seq<u8>,
    j: int,
)
    requires
        s.next_seq < u64::MAX,
        0 <= j < s.subs.len(),
        s.subs[j].topic == topic,
    ensures
        ({
            let acts = hub_step(
                s,
                SpecHubEvent::Publish { client_id, msg_id, topic, content },
            ).1;
            exists|k: int| 0 <= k < acts.len() && acts[k] == (SpecHubAction::Deliver {
                client_id: s.subs[j].client_id,
                seq_id: s.next_seq,
                topic,
                content,
            })
        }),
{
    lemma_subscribers_complete(s.subs, topic, j);
    let targets = subscribers_of(s.subs, topic);
    let k = choose|k: int| 0 <= k < targets.len() && targets[k] == s.subs[j].client_id;
    let acts = hub_step(s, SpecHubEvent::Publish { client_id, msg_id, topic, content }).1;
    assert(acts[k] == (SpecHubAction::Deliver {
        client_id: s.subs[j].client_id,
        seq_id: s.next_seq,
        topic,
        content,
    }));
}

/// An acknowledgement is accepted only for a sequence id the hub issued
/// and has not yet collected: with no outstanding entry under `seq_id`,
/// the ack changes nothing; with one, only that entry's pending set
/// shrinks, by the acknowledging client alone.
pub proof fn lemma_ack_only_outstanding(s: SpecHub, seq_id: u64, client_id: u64)
    ensures
        find_entry(s.entries, seq_id) is None ==> hub_step(
            s,
            SpecHubEvent::Ack { seq_id, client_id },
        ).0 == s,
        hub_step(s, SpecHubEvent::Ack { seq_id, client_id }).1 == Seq::<SpecHubAction>::empty(),
{
}

/// A whole run of the hub: the final state and every delivery, in order.
pub open spec fn hub_run(s: SpecHub, events: Seq<SpecHubEvent>) -> (SpecHub, Seq<SpecHubAction>)
    decreases events.len(),
{
    if events.len() == 0 {
        (s, Seq::empty())
    } else {
        let s1 = hub_step(s, events[0]).0;
        (hub_run(s1, events.skip(1)).0, hub_step(s, events[0]).1 + hub_run(s1, events.skip(1)).1)
    }
}

/// The sequence ids delivered to `c`, in delivery order.
pub open spec fn deliveries_to(actions: Seq<SpecHubAction>, c: u64) -> Seq<u64>
    decreases actions.len(),
{
    if actions.len() == 0 {
        Seq::empty()
    } else {
        (match actions[0] {
            SpecHubAction::Deliver { client_id, seq_id, .. } => if client_id == c {
                seq![seq_id]
            } else {
                Seq::<u64>::empty()
            },
        }) + deliveries_to(actions.skip(1), c)
    }
}

/// Per-subscriber delivery extraction distributes over concatenation.
proof fn lemma_deliveries_to_append(a: Seq<SpecHubAction>, b: Seq<SpecHubAction>, c: u64)
    ensures
        deliveries_to(a + b, c) == deliveries_to(a, c) + deliveries_to(b, c),
    decreases a.len(),
{
    if a.len() == 0 {
        assert(a + b =~= b);
        assert(deliveries_to(a, c) + deliveries_to(b, c) =~= deliveries_to(b, c));
    } else {
        assert((a + b).skip(1) =~= a.skip(1) + b);
        lemma_deliveries_to_append(a.skip(1), b, c);
        assert(deliveries_to(a + b, c) =~= deliveries_to(a, c) + deliveries_to(b, c));
    }
}

/// How often `c` stands in a fan-out list.
pub open spec fn count_in(ids: Seq<u64>, c: u64) -> int
    decreases ids.len(),
{
    if ids.len() == 0 {
        0
    } else {
        (if ids[0] == c {
            1int
        } else {
            0int
        }) + count_in(ids.skip(1), c)
    }
}

/// A fan-out delivers to `c` once per occurrence in the target list.
proof fn lemma_deliveries_to_deliver_all(
    ids: Seq<u64>,
    q: u64,
    topic: Seq<u8>,
    content: Seq<u8>,
    c: u64,
)
    ensures
        deliveries_to(deliver_all(ids, q, topic, content), c) == Seq::new(
            count_in(ids, c) as nat,
            |i: int| q,
        ),
    decreases ids.len(),
{
    let acts = deliver_all(ids, q, topic, content);
    if ids.len() == 0 {
        assert(deliveries_to(acts, c) =~= Seq::new(0, |i: int| q));
    } else {
        assert(acts.skip(1) =~= deliver_all(ids.skip(1), q, topic, content));
        lemma_deliveries_to_deliver_all(ids.skip(1), q, topic, content, c);
        assert(count_in(ids, c) >= 0 && count_in(ids.skip(1), c) >= 0) by {
            lemma_count_in_nonneg(ids, c);
            lemma_count_in_nonneg(ids.skip(1), c);
        }
        if ids[0] == c {
            assert(deliveries_to(acts, c) =~= Seq::new(count_in(ids, c) as nat, |i: int| q));
        } else {
            assert(deliveries_to(acts, c) =~= Seq::new(count_in(ids, c) as nat, |i: int| q));
        }
    }
}

/// A count is never negative.
proof fn lemma_count_in_nonneg(ids: Seq<u64>, c: u64)
    ensures
        count_in(ids, c) >= 0,
    decreases ids.len(),
{
    if ids.len() > 0 {
        lemma_count_in_nonneg(ids.skip(1), c);
    }
}

/// With at most one subscription per pair, `c` stands in a topic's fan-out
/// list exactly as often as the pair stands in the table.
proof fn lemma_count_in_subscribers(subs: Seq<SpecSubscription>, topic: Seq<u8>, c: u64)
    ensures
        count_in(subscribers_of(subs, topic), c) == count_pair(subs, c, topic),
    decreases subs.len(),
{
    if subs.len() > 0 {
        lemma_count_in_subscribers(subs.skip(1), topic, c);
        if subs[0].topic == topic {
            let r1 = subscribers_of(subs.skip(1), topic);
            assert((seq![subs[0].client_id] + r1).skip(1) =~= r1);
        }
    }
}

/// The hub's well-formedness: at most one subscription per pair.
pub open spec fn hub_wf(s: SpecHub) -> bool {
    forall|c: u64, t: Seq<u8>| #[trigger] count_pair(s.subs, c, t) <= 1
}

/// A count is never negative.
proof fn lemma_count_pair_nonneg(subs: Seq<SpecSubscription>, c: u64, t: Seq<u8>)
    ensures
        count_pair(subs, c, t) >= 0,
    decreases subs.len(),
{
    if subs.len() > 0 {
        lemma_count_pair_nonneg(subs.skip(1), c, t);
    }
}

/// Purging a client zeroes its counts and leaves the others.
proof fn lemma_subs_purge_count(subs: Seq<SpecSubscription>, c0: u64, c: u64, t: Seq<u8>)
    ensures
        count_pair(subs_purge(subs, c0), c, t) == if c == c0 {
            0int
        } else {
            count_pair(subs, c, t)
        },
    decreases subs.len(),
{
    if subs.len() > 0 {
        lemma_subs_purge_count(subs.skip(1), c0, c, t);
        let r1 = subs_purge(subs.skip(1), c0);
        if subs[0].client_id != c0 {
            assert((seq![subs[0]] + r1).skip(1) =~= r1);
            assert((seq![subs[0]] + r1)[0] == subs[0]);
        }
    }
}

/// Every step keeps the hub well formed.
pub proof fn lemma_step_preserves_wf(s: SpecHub, e: SpecHubEvent)
    requires
        hub_wf(s),
    ensures
        hub_wf(hub_step(s, e).0),
{
    let s1 = hub_step(s, e).0;
    match e {
        SpecHubEvent::Subscribe { client_id, topic } => {
            lemma_subscribe_replaces(s, client_id, topic);
            assert forall|c: u64, t: Seq<u8>| #[trigger] count_pair(s1.subs, c, t) <= 1 by {
                if !(c == client_id && t == topic) {
                    assert(count_pair(s1.subs, c, t) == count_pair(s.subs, c, t));
                }
            }
        },
        SpecHubEvent::Unsubscribe { client_id, topic } => {
            lemma_subs_remove_counts(s.subs, client_id, topic);
            assert forall|c: u64, t: Seq<u8>| #[trigger] count_pair(s1.subs, c, t) <= 1 by {
                if !(c == client_id && t == topic) {
                    assert(count_pair(s1.subs, c, t) == count_pair(s.subs, c, t));
                }
            }
        },
        SpecHubEvent::Disconnect { client_id } => {
            assert forall|c: u64, t: Seq<u8>| #[trigger] count_pair(s1.subs, c, t) <= 1 by {
                lemma_subs_purge_count(s.subs, client_id, c, t);
            }
        },
        _ => {
            assert(s1.subs == s.subs);
        },
    }
}

/// The sequence ids `c` is owed, in hub enqueue order: one per accepted
/// publish to a topic `c` was then subscribed to.
pub open spec fn expected_seqs(s: SpecHub, events: Seq<SpecHubEvent>, c: u64) -> Seq<u64>
    decreases events.len(),
{
    if events.len() == 0 {
        Seq::empty()
    } else {
        let here: Seq<u64> = match events[0] {
            SpecHubEvent::Publish { client_id, msg_id, topic, content } => if s.next_seq
                != u64::MAX && count_pair(s.subs, c, topic) == 1 {
                seq![s.next_seq]
            } else {
                Seq::empty()
            },
            _ => Seq::empty(),
        };
        here + expected_seqs(hub_step(s, events[0]).0, events.skip(1), c)
    }
}

/// Per subscriber, publication delivery order equals hub enqueue order:
/// over any retry-free run of a well-formed hub, the sequence ids delivered
/// to a client are exactly the ids assigned, in assignment order, to the
/// publishes on topics the client was subscribed to when each arrived.
#[verifier::rlimit(60)]
#[verifier::spinoff_prover]
pub proof fn lemma_delivery_order(s: SpecHub, events: Seq<SpecHubEvent>, c: u64)
    requires
        hub_wf(s),
        forall|k: int| 0 <= k < events.len() ==> !(#[trigger] events[k] is Retry),
    ensures
        deliveries_to(hub_run(s, events).1, c) == expected_seqs(s, events, c),
    decreases events.len(),
{
    assert(deliveries_to(Seq::<SpecHubAction>::empty(), c) =~= Seq::<u64>::empty());
    if events.len() > 0 {
        let e = events[0];
        let s1 = hub_step(s, e).0;
        let a1 = hub_step(s, e).1;
        let rest = hub_run(s1, events.skip(1)).1;
        lemma_step_preserves_wf(s, e);
        assert(forall|k: int| 0 <= k < events.skip(1).len() ==> events.skip(1)[k] == events[k
            + 1]);
        lemma_delivery_order(s1, events.skip(1), c);
        lemma_deliveries_to_append(a1, rest, c);
        let here: Seq<u64> = match e {
            SpecHubEvent::Publish { client_id, msg_id, topic, content } => if s.next_seq
                != u64::MAX && count_pair(s.subs, c, topic) == 1 {
                seq![s.next_seq]
            } else {
                Seq::empty()
            },
            _ => Seq::empty(),
        };
        assert(deliveries_to(a1, c) == here) by {
            match e {
                SpecHubEvent::Publish { client_id, msg_id, topic, content } => {
                    if s.next_seq == u64::MAX {
                    } else {
                        let targets = subscribers_of(s.subs, topic);
                        lemma_deliveries_to_deliver_all(targets, s.next_seq, topic, content, c);
                        lemma_count_in_subscribers(s.subs, topic, c);
                        lemma_count_pair_nonneg(s.subs, c, topic);
                        if count_pair(s.subs, c, topic) == 1 {
                            assert(deliveries_to(a1, c) =~= seq![s.next_seq]);
                        } else {
                            assert(count_pair(s.subs, c, topic) == 0);
                            assert(deliveries_to(a1, c) =~= Seq::<u64>::empty());
                        }
                    }
                },
                SpecHubEvent::Retry { seq_id } => {
                    assert(!(events[0] is Retry));
                },
                _ => {},
            }
        }
        assert(deliveries_to(a1 + rest, c) =~= here + expected_seqs(s1, events.skip(1), c));
    }
}

} // verus!
