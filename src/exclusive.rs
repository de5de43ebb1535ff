use vstd::prelude::*;

use dashmap::DashMap;

use crate::keyed::KeyMap;
use crate::subscribe::{QoS, Subscriber};
use crate::tables::{
    subscriber_entries, subscriber_table_contains, subscriber_table_get, subscriber_table_insert,
    subscriber_table_keys, subscriber_table_new, subscriber_table_remove, wait_entries,
    wait_table_contains, wait_table_insert, wait_table_keys, wait_table_new, wait_table_remove,
};

verus! {

pub open spec fn qos_level(q: QoS) -> int {
    match q {
        QoS::AtMostOnce => 0,
        QoS::AtLeastOnce => 1,
        QoS::ExactlyOnce => 2,
    }
}

/// The QoS a message is delivered with: the lower of the cluster's maximum and
/// the subscriber's request.
pub fn min_qos(cluster_qos: QoS, sub_qos: QoS) -> (r: QoS)
    ensures
        qos_level(r) == if qos_level(cluster_qos) <= qos_level(sub_qos) {
            qos_level(cluster_qos)
        } else {
            qos_level(sub_qos)
        },
        r == cluster_qos || r == sub_qos,
{
    let a: u8 = match cluster_qos {
        QoS::AtMostOnce => 0,
        QoS::AtLeastOnce => 1,
        QoS::ExactlyOnce => 2,
    };
    let b: u8 = match sub_qos {
        QoS::AtMostOnce => 0,
        QoS::AtLeastOnce => 1,
        QoS::ExactlyOnce => 2,
    };
    if a <= b {
        cluster_qos
    } else {
        sub_qos
    }
}

/// The consumer group of an exclusive subscription:
/// `system_sub_{client_id}_{sub_path}_{topic_id}`.
pub fn exclusive_group_id(client_id: &String, sub_path: &String, topic_id: &String) -> (r: String)
    ensures
        r@ == "system_sub_"@ + client_id@ + "_"@ + sub_path@ + "_"@ + topic_id@,
{
    let mut g = String::from_str("system_sub_");
    g.append(client_id.as_str());
    g.append("_");
    g.append(sub_path.as_str());
    g.append("_");
    g.append(topic_id.as_str());
    g
}

/// A message as the store keeps it.
pub struct MqttMessage {
    pub client_id: String,
    pub retain: bool,
    pub payload: Vec<u8>,
    pub format_indicator: Option<u8>,
    /// The time, in seconds, after which the message is no longer delivered.
    pub expiry_interval: u64,
    pub response_topic: Option<String>,
    pub correlation_data: Option<Vec<u8>>,
    pub user_properties: Vec<(String, String)>,
    pub content_type: Option<String>,
}

pub struct Publish {
    pub dup: bool,
    pub qos: QoS,
    pub pkid: u16,
    pub retain: bool,
    pub topic: String,
    pub payload: Vec<u8>,
}

pub struct PublishProperties {
    pub payload_format_indicator: Option<u8>,
    pub message_expiry_interval: Option<u32>,
    pub topic_alias: Option<u16>,
    pub response_topic: Option<String>,
    pub correlation_data: Option<Vec<u8>>,
    pub user_properties: Vec<(String, String)>,
    pub subscription_identifiers: Vec<usize>,
    pub content_type: Option<String>,
}

/// What the push loop does with one stored record.
pub enum RecordAction {
    /// Commit the record's offset without delivering it.
    Skip,
    /// Deliver the packet, then commit the record's offset.
    Deliver(Publish, PublishProperties),
}

pub open spec fn is_expired(msg: MqttMessage, now: u64) -> bool {
    msg.expiry_interval < now
}

/// The record is dropped: it did not decode, it expired, or it is the
/// subscriber's own message under no-local.
pub open spec fn record_dropped(subscriber: Subscriber, msg: Option<MqttMessage>, now: u64) -> bool {
    match msg {
        None => true,
        Some(m) => is_expired(m, now) || (subscriber.nolocal && subscriber.client_id@ == m.client_id@),
    }
}

pub fn is_message_expire(msg: &MqttMessage, now: u64) -> (r: bool)
    ensures
        r == is_expired(*msg, now),
{
    msg.expiry_interval < now
}

fn copy_sub_ids(ids: &Vec<usize>) -> (r: Vec<usize>)
    ensures
        r@ == ids@,
{
    let mut out: Vec<usize> = Vec::new();
    let mut i: usize = 0;
    while i < ids.len()
        invariant
            i <= ids@.len(),
            out@ == ids@.subrange(0, i as int),
        decreases ids@.len() - i,
    {
        out.push(ids[i]);
        i = i + 1;
        assert(out@ =~= ids@.subrange(0, i as int));
    }
    assert(out@ =~= ids@);
    out
}

/// Decides what happens to one record read for an exclusive subscription.
/// `msg` is the decoded record, or `None` where it did not decode; `qos` is the
/// delivery QoS and `sub_ids` the subscription identifiers to carry.
pub fn decide_record(
    subscriber: &Subscriber,
    msg: Option<MqttMessage>,
    now: u64,
    qos: QoS,
    sub_ids: &Vec<usize>,
) -> (r: RecordAction)
    ensures
        record_dropped(*subscriber, msg, now) <==> r is Skip,
        r matches RecordAction::Deliver(p, props) ==> {
            let m = msg.unwrap();
            &&& p.dup == false
            &&& p.qos == qos
            &&& p.pkid == 0
            &&& p.retain == (subscriber.preserve_retain && m.retain)
            &&& p.topic@ == subscriber.topic_name@
            &&& p.payload@ == m.payload@
            &&& props.payload_format_indicator == m.format_indicator
            &&& props.message_expiry_interval == Some(m.expiry_interval as u32)
            &&& props.topic_alias.is_none()
            &&& props.response_topic == m.response_topic
            &&& props.correlation_data == m.correlation_data
            &&& props.user_properties == m.user_properties
            &&& props.subscription_identifiers@ == sub_ids@
            &&& props.content_type == m.content_type
        },
{
    match msg {
        None => RecordAction::Skip,
        Some(m) => {
            if is_message_expire(&m, now) {
                return RecordAction::Skip;
            }
            if subscriber.nolocal && subscriber.client_id == m.client_id {
                return RecordAction::Skip;
            }
            let retain = if subscriber.preserve_retain {
                m.retain
            } else {
                false
            };
            let publish = Publish {
                dup: false,
                qos,
                pkid: 0,
                retain,
                topic: subscriber.topic_name.clone(),
                payload: m.payload,
            };
            let properties = PublishProperties {
                payload_format_indicator: m.format_indicator,
                message_expiry_interval: Some(m.expiry_interval as u32),
                topic_alias: None,
                response_topic: m.response_topic,
                correlation_data: m.correlation_data,
                user_properties: m.user_properties,
                subscription_identifiers: copy_sub_ids(sub_ids),
                content_type: m.content_type,
            };
            RecordAction::Deliver(publish, properties)
        },
    }
}

/// The offset committed for a subscription's consumer group, which only moves
/// forward.
pub struct OffsetTracker {
    committed: Option<u64>,
}

impl OffsetTracker {
    pub closed spec fn last(&self) -> Option<u64> {
        self.committed
    }

    pub fn new() -> (r: OffsetTracker)
        ensures
            r.last().is_none(),
    {
        OffsetTracker { committed: None }
    }

    /// Records that `offset` was handled. An offset at or below the last
    /// committed one is stale and is not committed again.
    pub fn commit(&mut self, offset: u64) -> (r: bool)
        ensures
            r == commit_accepted(old(self).last(), offset),
            final(self).last() == if r {
                Some(offset)
            } else {
                old(self).last()
            },
    {
        let accept = match self.committed {
            Some(c) => offset > c,
            None => true,
        };
        if accept {
            self.committed = Some(offset);
        }
        accept
    }
}

pub open spec fn commit_accepted(last: Option<u64>, offset: u64) -> bool {
    match last {
        Some(c) => offset > c,
        None => true,
    }
}

/// The offsets a tracker commits, in order, as `offsets` are handled in turn.
pub open spec fn committed_trace(last: Option<u64>, offsets: Seq<u64>) -> Seq<u64>
    decreases offsets.len(),
{
    if offsets.len() == 0 {
        Seq::empty()
    } else {
        let rest = offsets.drop_first();
        if commit_accepted(last, offsets[0]) {
            seq![offsets[0]] + committed_trace(Some(offsets[0]), rest)
        } else {
            committed_trace(last, rest)
        }
    }
}

/// Whatever offsets are handled, the offsets committed to a consumer group
/// strictly increase, and all lie above the one committed before.
pub proof fn lemma_committed_offsets_increase(last: Option<u64>, offsets: Seq<u64>)
    ensures
        forall|i: int, j: int|
            0 <= i < j < committed_trace(last, offsets).len() ==> #[trigger] committed_trace(
                last,
                offsets,
            )[i] < #[trigger] committed_trace(last, offsets)[j],
        forall|i: int|
            0 <= i < committed_trace(last, offsets).len() ==> commit_accepted(
                last,
                #[trigger] committed_trace(last, offsets)[i],
            ),
    decreases offsets.len(),
{
    if offsets.len() > 0 {
        let rest = offsets.drop_first();
        if commit_accepted(last, offsets[0]) {
            lemma_committed_offsets_increase(Some(offsets[0]), rest);
            let t = committed_trace(last, offsets);
            let tr = committed_trace(Some(offsets[0]), rest);
            assert(t == seq![offsets[0]] + tr);
            assert forall|i: int, j: int| 0 <= i < j < t.len() implies #[trigger] t[i] < #[trigger] t[j] by {
                if i == 0 {
                    assert(t[0] == offsets[0]);
                    assert(t[j] == tr[j - 1]);
                    assert(commit_accepted(Some(offsets[0]), tr[j - 1]));
                } else {
                    assert(t[i] == tr[i - 1] && t[j] == tr[j - 1]);
                }
            }
            assert forall|i: int| 0 <= i < t.len() implies commit_accepted(last, #[trigger] t[i]) by {
                if i > 0 {
                    assert(t[i] == tr[i - 1]);
                    assert(commit_accepted(Some(offsets[0]), tr[i - 1]));
                } else {
                    assert(t[0] == offsets[0]);
                }
            }
        } else {
            lemma_committed_offsets_increase(last, rest);
            assert(committed_trace(last, offsets) == committed_trace(last, rest));
        }
    }
}

#[derive(Clone, Copy, Debug, PartialEq, Eq, Structural)]
pub enum QosAckPackageType {
    PubAck,
    PubRec,
    PubRel,
    PubComp,
}

/// An acknowledgement posted to a publish's wait channel.
#[derive(Clone, Copy, Debug, PartialEq, Eq, Structural)]
pub struct QosAckPackageData {
    pub ack_type: QosAckPackageType,
    pub pkid: u16,
}

/// What a QoS 1 delivery attempt does next.
#[derive(Clone, Copy, Debug, PartialEq, Eq, Structural)]
pub enum Qos1Step {
    /// The push thread was told to stop: return.
    Stop,
    /// The client has no connection: wait a second and look again.
    WaitConnection,
    /// The packet exceeds the connection's maximum size: give up cleanly.
    Drop,
    /// Send the PUBLISH with this `dup` flag, with properties for MQTT 5.
    Send { dup: bool, with_properties: bool },
}

/// What follows a QoS 1 send.
#[derive(Clone, Copy, Debug, PartialEq, Eq, Structural)]
pub enum Qos1After {
    /// The matching PUBACK came: release the pkid and the ack-wait entry.
    Acked,
    /// No matching PUBACK: send again.
    Resend,
    /// The send failed: wait a second and send again.
    RetryAfterSleep,
}

/// The retry state of one QoS 1 delivery.
pub struct Qos1Delivery {
    pub pkid: u16,
    pub retry_times: u64,
}

impl Qos1Delivery {
    pub open spec fn attempts(&self) -> u64 {
        self.retry_times
    }

    pub fn new(pkid: u16) -> (r: Qos1Delivery)
        ensures
            r.pkid == pkid,
            r.attempts() == 0,
    {
        Qos1Delivery { pkid, retry_times: 0 }
    }

    /// Decides the next attempt. `connect_id` is the client's connection, if
    /// any; `max_packet_size` that connection's limit, where known.
    pub fn begin_attempt(
        &mut self,
        stop: bool,
        connect_id: Option<u64>,
        max_packet_size: Option<u32>,
        payload_len: usize,
        is_mqtt5: bool,
    ) -> (r: Qos1Step)
        ensures
            final(self).pkid == old(self).pkid,
            r == if stop {
                Qos1Step::Stop
            } else if connect_id.is_none() {
                Qos1Step::WaitConnection
            } else if max_packet_size.is_some() && payload_len > max_packet_size.unwrap() {
                Qos1Step::Drop
            } else {
                Qos1Step::Send {
                    dup: final(self).attempts() >= 2,
                    with_properties: is_mqtt5,
                }
            },
            final(self).attempts() == if r is Send {
                if old(self).attempts() < u64::MAX {
                    (old(self).attempts() + 1) as u64
                } else {
                    old(self).attempts()
                }
            } else {
                old(self).attempts()
            },
    {
        if stop {
            return Qos1Step::Stop;
        }
        if connect_id.is_none() {
            return Qos1Step::WaitConnection;
        }
        if let Some(max) = max_packet_size {
            if payload_len > max as usize {
                return Qos1Step::Drop;
            }
        }
        if self.retry_times < u64::MAX {
            self.retry_times = self.retry_times + 1;
        }
        Qos1Step::Send { dup: self.retry_times >= 2, with_properties: is_mqtt5 }
    }

    /// Decides what follows a send: `sent` tells whether the packet reached the
    /// connection's queue, `ack` what the wait channel gave.
    pub fn after_send(&self, sent: bool, ack: Option<QosAckPackageData>) -> (r: Qos1After)
        ensures
            r == if !sent {
                Qos1After::RetryAfterSleep
            } else if ack == Some(
                QosAckPackageData { ack_type: QosAckPackageType::PubAck, pkid: self.pkid },
            ) {
                Qos1After::Acked
            } else {
                Qos1After::Resend
            },
    {
        if !sent {
            return Qos1After::RetryAfterSleep;
        }
        match ack {
            Some(data) => {
                if data.ack_type == QosAckPackageType::PubAck && data.pkid == self.pkid {
                    Qos1After::Acked
                } else {
                    Qos1After::Resend
                }
            },
            None => Qos1After::Resend,
        }
    }
}

/// Where a QoS 2 delivery stands once its PUBLISH was sent.
#[derive(Clone, Copy, Debug, PartialEq, Eq, Structural)]
pub enum Qos2Phase {
    WaitPubRec,
    WaitPubComp,
    Done,
}

/// What a QoS 2 delivery does on a wait's outcome.
#[derive(Clone, Copy, Debug, PartialEq, Eq, Structural)]
pub enum Qos2Action {
    /// Wait on the channel again.
    Wait,
    /// The wait timed out before PUBREC: send the PUBLISH again.
    ResendPublish,
    /// PUBREC came: send PUBREL.
    SendPubRel,
    /// The wait timed out before PUBCOMP: send PUBREL again.
    ResendPubRel,
    /// The exchange is over.
    Finish,
}

pub open spec fn qos2_next(
    phase: Qos2Phase,
    stop: bool,
    ack: Option<QosAckPackageData>,
    pkid: u16,
) -> (Qos2Phase, Qos2Action) {
    match phase {
        Qos2Phase::Done => (Qos2Phase::Done, Qos2Action::Finish),
        Qos2Phase::WaitPubRec => if stop {
            (Qos2Phase::Done, Qos2Action::Finish)
        } else {
            match ack {
                None => (Qos2Phase::WaitPubRec, Qos2Action::ResendPublish),
                Some(a) => if a == (QosAckPackageData {
                    ack_type: QosAckPackageType::PubRec,
                    pkid,
                }) {
                    (Qos2Phase::WaitPubComp, Qos2Action::SendPubRel)
                } else {
                    (Qos2Phase::WaitPubRec, Qos2Action::Wait)
                },
            }
        },
        Qos2Phase::WaitPubComp => if stop {
            (Qos2Phase::Done, Qos2Action::Finish)
        } else {
            match ack {
                None => (Qos2Phase::WaitPubComp, Qos2Action::ResendPubRel),
                Some(a) => if a == (QosAckPackageData {
                    ack_type: QosAckPackageType::PubComp,
                    pkid,
                }) {
                    (Qos2Phase::Done, Qos2Action::Finish)
                } else {
                    (Qos2Phase::WaitPubComp, Qos2Action::Wait)
                },
            }
        },
    }
}

/// The state of one QoS 2 delivery after its PUBLISH was sent: PUBREC is
/// awaited (the PUBLISH resent on each timeout), then PUBREL sent and PUBCOMP
/// awaited (PUBREL resent on each timeout). A stop signal ends it at any wait.
pub struct Qos2Delivery {
    pub pkid: u16,
    pub phase: Qos2Phase,
}

impl Qos2Delivery {
    pub open spec fn phase(&self) -> Qos2Phase {
        self.phase
    }

    /// A delivery whose PUBLISH was just sent.
    pub fn new(pkid: u16) -> (r: Qos2Delivery)
        ensures
            r.pkid == pkid,
            r.phase() == Qos2Phase::WaitPubRec,
    {
        Qos2Delivery { pkid, phase: Qos2Phase::WaitPubRec }
    }

    pub fn current_phase(&self) -> (r: Qos2Phase)
        ensures
            r == self.phase(),
    {
        self.phase
    }

    /// Handles the outcome of one wait: `stop` whether the stop signal was seen
    /// first, `ack` what the wait channel gave, `None` on timeout.
    pub fn on_wait(&mut self, stop: bool, ack: Option<QosAckPackageData>) -> (r: Qos2Action)
        ensures
            final(self).pkid == old(self).pkid,
            (final(self).phase(), r) == qos2_next(old(self).phase(), stop, ack, old(self).pkid),
    {
        match self.phase {
            Qos2Phase::Done => Qos2Action::Finish,
            Qos2Phase::WaitPubRec => {
                if stop {
                    self.phase = Qos2Phase::Done;
                    return Qos2Action::Finish;
                }
                match ack {
                    None => Qos2Action::ResendPublish,
                    Some(a) => {
                        if a.ack_type == QosAckPackageType::PubRec && a.pkid == self.pkid {
                            self.phase = Qos2Phase::WaitPubComp;
                            Qos2Action::SendPubRel
                        } else {
                            Qos2Action::Wait
                        }
                    },
                }
            },
            Qos2Phase::WaitPubComp => {
                if stop {
                    self.phase = Qos2Phase::Done;
                    return Qos2Action::Finish;
                }
                match ack {
                    None => Qos2Action::ResendPubRel,
                    Some(a) => {
                        if a.ack_type == QosAckPackageType::PubComp && a.pkid == self.pkid {
                            self.phase = Qos2Phase::Done;
                            Qos2Action::Finish
                        } else {
                            Qos2Action::Wait
                        }
                    },
                }
            },
        }
    }
}

/// The ack-wait table: one entry per in-flight QoS 1 or 2 publish, keyed by
/// client id and packet id, holding the time it was registered.
pub struct AckWaitTable {
    entries: DashMap<(String, u16), u64>,
}

pub open spec fn ack_key(client_id: Seq<char>, pkid: u16) -> (Seq<char>, u16) {
    (client_id, pkid)
}

impl AckWaitTable {
    /// (client id, packet id) -> registration time
    pub closed spec fn waits(&self) -> Map<(Seq<char>, u16), u64> {
        wait_entries(self.entries)
    }

    pub fn new() -> (r: AckWaitTable)
        ensures
            r.waits() == Map::<(Seq<char>, u16), u64>::empty(),
    {
        AckWaitTable { entries: wait_table_new() }
    }

    pub fn contains(&self, client_id: &String, pkid: u16) -> (r: bool)
        ensures
            r == self.waits().contains_key(ack_key(client_id@, pkid)),
    {
        let key = (client_id.clone(), pkid);
        wait_table_contains(&self.entries, &key)
    }

    /// Allocates the smallest packet id in 1..=65535 that the client has no
    /// publish in flight with, and registers its ack-wait entry at `now`.
    /// Returns `None`, changing nothing, when every packet id is in flight.
    pub fn begin_inflight(&mut self, client_id: &String, now: u64) -> (r: Option<u16>)
        ensures
            r.is_some() ==> {
                let p = r.unwrap();
                &&& 1 <= p
                &&& !old(self).waits().contains_key(ack_key(client_id@, p))
                &&& forall|q: u16|
                    1 <= q < p ==> old(self).waits().contains_key(#[trigger] ack_key(client_id@, q))
                &&& final(self).waits() == old(self).waits().insert(ack_key(client_id@, p), now)
            },
            r.is_none() ==> {
                &&& forall|q: u16| 1 <= q ==> old(self).waits().contains_key(#[trigger] ack_key(client_id@, q))
                &&& final(self).waits() == old(self).waits()
            },
    {
        let mut p: u16 = 1;
        loop
            invariant
                self.waits() == old(self).waits(),
                1 <= p,
                forall|q: u16| 1 <= q < p ==> self.waits().contains_key(#[trigger] ack_key(client_id@, q)),
            decreases u16::MAX - p,
        {
            let key = (client_id.clone(), p);
            if !wait_table_contains(&self.entries, &key) {
                wait_table_insert(&mut self.entries, key, now);
                return Some(p);
            }
            if p == u16::MAX {
                return None;
            }
            p = p + 1;
        }
    }

    /// Ends the wait of a publish: on its terminal acknowledgement.
    pub fn remove_ack_packet(&mut self, client_id: &String, pkid: u16)
        ensures
            final(self).waits() == old(self).waits().remove(ack_key(client_id@, pkid)),
    {
        let key = (client_id.clone(), pkid);
        wait_table_remove(&mut self.entries, &key);
    }

    /// Session teardown: ends every wait of a client.
    pub fn remove_client(&mut self, client_id: &String)
        ensures
            forall|k: (Seq<char>, u16)| #[trigger]
                final(self).waits().contains_key(k) == (old(self).waits().contains_key(k) && k.0
                    != client_id@),
            forall|k: (Seq<char>, u16)| #[trigger]
                final(self).waits().contains_key(k) ==> final(self).waits()[k] == old(self).waits()[k],
    {
        let keys = wait_table_keys(&self.entries);
        let mut i: usize = 0;
        while i < keys.len()
            invariant
                i <= keys@.len(),
                forall|k: (Seq<char>, u16)| #[trigger] old(self).waits().contains_key(k) ==> exists|j: int|
                    0 <= j < keys@.len() && keys@[j]@ == k,
                forall|k: (Seq<char>, u16)| #[trigger]
                    self.waits().contains_key(k) == (old(self).waits().contains_key(k) && !(k.0 == client_id@
                        && exists|j: int| 0 <= j < i && keys@[j]@ == k)),
                forall|k: (Seq<char>, u16)| #[trigger]
                    self.waits().contains_key(k) ==> self.waits()[k] == old(self).waits()[k],
            decreases keys@.len() - i,
        {
            let ghost before = self.waits();
            let ghost kv = keys@[i as int]@;
            if keys[i].0 == *client_id {
                wait_table_remove(&mut self.entries, &keys[i]);
            }
            assert forall|k: (Seq<char>, u16)| #[trigger]
                self.waits().contains_key(k) == (old(self).waits().contains_key(k) && !(k.0 == client_id@
                    && exists|j: int| 0 <= j < i + 1 && keys@[j]@ == k)) by {
                if k == kv {
                    assert(keys@[i as int]@ == k);
                } else {
                    if exists|j: int| 0 <= j < i + 1 && keys@[j]@ == k {
                        let j = choose|j: int| 0 <= j < i + 1 && keys@[j]@ == k;
                        assert(j < i);
                    }
                }
            }
            i = i + 1;
        }
        assert forall|k: (Seq<char>, u16)| #[trigger]
            self.waits().contains_key(k) == (old(self).waits().contains_key(k) && k.0 != client_id@) by {
            if old(self).waits().contains_key(k) {
                let j = choose|j: int| 0 <= j < keys@.len() && keys@[j]@ == k;
            }
        }
    }
}

/// Exclusive subscriptions and the push threads that serve them, each under its
/// exclusive key; `T` is the handle that stops a thread.
pub struct SubscribeManager<T> {
    exclusive_subscribe: DashMap<String, Subscriber>,
    exclusive_push_thread: KeyMap<String, T>,
}

impl<T> SubscribeManager<T> {
    pub closed spec fn wf(&self) -> bool {
        self.exclusive_push_thread.wf()
    }

    pub closed spec fn subscriptions(&self) -> Map<Seq<char>, Subscriber> {
        subscriber_entries(self.exclusive_subscribe)
    }

    pub closed spec fn threads(&self) -> Map<Seq<char>, T> {
        self.exclusive_push_thread@
    }

    pub fn new() -> (r: SubscribeManager<T>)
        ensures
            r.wf(),
            r.subscriptions() == Map::<Seq<char>, Subscriber>::empty(),
            r.threads() == Map::<Seq<char>, T>::empty(),
    {
        SubscribeManager {
            exclusive_subscribe: subscriber_table_new(),
            exclusive_push_thread: KeyMap::new(),
        }
    }

    pub fn add_exclusive_subscribe(&mut self, key: String, subscriber: Subscriber)
        requires
            old(self).wf(),
        ensures
            final(self).wf(),
            final(self).subscriptions() == old(self).subscriptions().insert(key@, subscriber),
            final(self).threads() == old(self).threads(),
    {
        subscriber_table_insert(&mut self.exclusive_subscribe, key, subscriber);
    }

    pub fn remove_exclusive_subscribe(&mut self, key: &String)
        requires
            old(self).wf(),
        ensures
            final(self).wf(),
            final(self).subscriptions() == old(self).subscriptions().remove(key@),
            final(self).threads() == old(self).threads(),
    {
        subscriber_table_remove(&mut self.exclusive_subscribe, key);
    }

    /// Records the push thread started for `key`.
    pub fn add_push_thread(&mut self, key: String, handle: T)
        requires
            old(self).wf(),
        ensures
            final(self).wf(),
            final(self).subscriptions() == old(self).subscriptions(),
            final(self).threads() == old(self).threads().insert(key@, handle),
    {
        self.exclusive_push_thread.insert(key, handle);
    }

    /// Forgets the push thread of `key`: after it was stopped, or when it exits.
    pub fn remove_push_thread(&mut self, key: &String) -> (r: Option<T>)
        requires
            old(self).wf(),
        ensures
            final(self).wf(),
            final(self).subscriptions() == old(self).subscriptions(),
            final(self).threads() == old(self).threads().remove(key@),
            r.is_some() == old(self).threads().contains_key(key@),
            r.is_some() ==> r.unwrap() == old(self).threads()[key@],
    {
        self.exclusive_push_thread.remove(key)
    }

    /// The stop handle of the push thread of `key`.
    pub fn get_push_thread(&self, key: &String) -> (r: Option<&T>)
        requires
            self.wf(),
        ensures
            r.is_some() == self.threads().contains_key(key@),
            r.is_some() ==> *r.unwrap() == self.threads()[key@],
    {
        self.exclusive_push_thread.get(key)
    }

    /// The subscription a push thread serves.
    pub fn get_subscriber(&self, key: &String) -> (r: Option<Subscriber>)
        ensures
            r.is_some() == self.subscriptions().contains_key(key@),
            r.is_some() ==> r.unwrap() == self.subscriptions()[key@],
    {
        subscriber_table_get(&self.exclusive_subscribe, key)
    }

    /// The keys whose subscription has no push thread yet: one thread is to be
    /// started for each.
    pub fn start_push_thread(&self) -> (r: Vec<String>)
        requires
            self.wf(),
        ensures
            forall|i: int, j: int| 0 <= i < j < r@.len() ==> #[trigger] r@[i]@ != #[trigger] r@[j]@,
            forall|k: Seq<char>|
                (exists|i: int| 0 <= i < r@.len() && #[trigger] r@[i]@ == k) == (
                #[trigger] self.subscriptions().contains_key(k) && !self.threads().contains_key(k)),
    {
        let keys = subscriber_table_keys(&self.exclusive_subscribe);
        let mut out: Vec<String> = Vec::new();
        let ghost mut pos: Seq<int> = Seq::empty();
        let mut i: usize = 0;
        while i < keys.len()
            invariant
                self.wf(),
                i <= keys@.len(),
                forall|a: int, b: int| 0 <= a < b < keys@.len() ==> #[trigger] keys@[a]@ != #[trigger] keys@[b]@,
                forall|a: int| 0 <= a < keys@.len() ==> self.subscriptions().contains_key(#[trigger] keys@[a]@),
                pos.len() == out@.len(),
                forall|a: int| 0 <= a < pos.len() ==> 0 <= #[trigger] pos[a] < i,
                forall|a: int, b: int| 0 <= a < b < pos.len() ==> #[trigger] pos[a] < #[trigger] pos[b],
                forall|a: int| 0 <= a < out@.len() ==> #[trigger] out@[a]@ == keys@[pos[a]]@,
                forall|a: int| 0 <= a < out@.len() ==> !self.threads().contains_key(#[trigger] out@[a]@),
                forall|j: int| 0 <= j < i && !self.threads().contains_key(#[trigger] keys@[j]@)
                    ==> exists|a: int| 0 <= a < pos.len() && pos[a] == j,
            decreases keys@.len() - i,
        {
            let ghost old_pos = pos;
            if !self.exclusive_push_thread.contains_key(&keys[i]) {
                out.push(keys[i].clone());
                proof {
                    pos = pos.push(i as int);
                }
            }
            proof {
                assert forall|j: int| 0 <= j < i + 1 && !self.threads().contains_key(#[trigger] keys@[j]@)
                    implies exists|a: int| 0 <= a < pos.len() && pos[a] == j by {
                    if j == i {
                        assert(pos[pos.len() - 1] == j);
                    } else {
                        let a = choose|a: int| 0 <= a < old_pos.len() && old_pos[a] == j;
                        assert(pos[a] == j);
                    }
                }
            }
            i = i + 1;
        }
        proof {
            assert forall|a: int, b: int| 0 <= a < b < out@.len() implies #[trigger] out@[a]@ != #[trigger] out@[b]@ by {
                assert(pos[a] < pos[b]);
            }
            assert forall|k: Seq<char>|
                (exists|a: int| 0 <= a < out@.len() && #[trigger] out@[a]@ == k) == (
                #[trigger] self.subscriptions().contains_key(k) && !self.threads().contains_key(k)) by {
                if self.subscriptions().contains_key(k) && !self.threads().contains_key(k) {
                    let j = choose|j: int| 0 <= j < keys@.len() && keys@[j]@ == k;
                    let a = choose|a: int| 0 <= a < pos.len() && pos[a] == j;
                    assert(out@[a]@ == k);
                }
                if exists|a: int| 0 <= a < out@.len() && #[trigger] out@[a]@ == k {
                    let a = choose|a: int| 0 <= a < out@.len() && #[trigger] out@[a]@ == k;
                    assert(self.subscriptions().contains_key(keys@[pos[a]]@));
                }
            }
        }
        out
    }

    /// The keys whose push thread has no subscription any more: each thread is
    /// to be stopped, and forgotten once the stop signal was sent.
    pub fn try_thread_gc(&self) -> (r: Vec<String>)
        requires
            self.wf(),
        ensures
            forall|i: int, j: int| 0 <= i < j < r@.len() ==> #[trigger] r@[i]@ != #[trigger] r@[j]@,
            forall|k: Seq<char>|
                (exists|i: int| 0 <= i < r@.len() && #[trigger] r@[i]@ == k) == (
                #[trigger] self.threads().contains_key(k) && !self.subscriptions().contains_key(k)),
    {
        let keys = self.exclusive_push_thread.keys();
        proof {
            self.exclusive_push_thread.lemma_positions();
        }
        let mut out: Vec<String> = Vec::new();
        let ghost mut pos: Seq<int> = Seq::empty();
        let mut i: usize = 0;
        while i < keys.len()
            invariant
                self.wf(),
                i <= keys@.len(),
                keys@.len() == self.threads().len(),
                forall|j: int| 0 <= j < keys@.len() ==> #[trigger] keys@[j]@ == self.exclusive_push_thread.key_at(j),
                pos.len() == out@.len(),
                forall|a: int| 0 <= a < pos.len() ==> 0 <= #[trigger] pos[a] < i,
                forall|a: int, b: int| 0 <= a < b < pos.len() ==> #[trigger] pos[a] < #[trigger] pos[b],
                forall|a: int| 0 <= a < out@.len() ==> #[trigger] out@[a]@ == keys@[pos[a]]@,
                forall|a: int| 0 <= a < out@.len() ==> !self.subscriptions().contains_key(#[trigger] out@[a]@),
                forall|j: int| 0 <= j < i && !self.subscriptions().contains_key(#[trigger] keys@[j]@)
                    ==> exists|a: int| 0 <= a < pos.len() && pos[a] == j,
            decreases keys@.len() - i,
        {
            let ghost old_pos = pos;
            if !subscriber_table_contains(&self.exclusive_subscribe, &keys[i]) {
                out.push(keys[i].clone());
                proof {
                    pos = pos.push(i as int);
                }
            }
            proof {
                assert forall|j: int| 0 <= j < i + 1 && !self.subscriptions().contains_key(#[trigger] keys@[j]@)
                    implies exists|a: int| 0 <= a < pos.len() && pos[a] == j by {
                    if j == i {
                        assert(pos[pos.len() - 1] == j);
                    } else {
                        let a = choose|a: int| 0 <= a < old_pos.len() && old_pos[a] == j;
                        assert(pos[a] == j);
                    }
                }
            }
            i = i + 1;
        }
        proof {
            assert forall|a: int, b: int| 0 <= a < b < out@.len() implies #[trigger] out@[a]@ != #[trigger] out@[b]@ by {
                assert(pos[a] < pos[b]);
                assert(self.exclusive_push_thread.key_at(pos[a]) != self.exclusive_push_thread.key_at(pos[b]));
            }
            assert forall|k: Seq<char>|
                (exists|a: int| 0 <= a < out@.len() && #[trigger] out@[a]@ == k) == (
                #[trigger] self.threads().contains_key(k) && !self.subscriptions().contains_key(k)) by {
                if self.threads().contains_key(k) && !self.subscriptions().contains_key(k) {
                    let j = choose|j: int| 0 <= j < keys@.len() && self.exclusive_push_thread.key_at(j) == k;
                    assert(keys@[j]@ == k);
                    let a = choose|a: int| 0 <= a < pos.len() && pos[a] == j;
                    assert(out@[a]@ == k);
                }
                if exists|a: int| 0 <= a < out@.len() && #[trigger] out@[a]@ == k {
                    let a = choose|a: int| 0 <= a < out@.len() && #[trigger] out@[a]@ == k;
                    assert(self.threads().contains_key(self.exclusive_push_thread.key_at(pos[a])));
                }
            }
        }
        out
    }
}

/// One scheduler tick with no concurrent change of the subscriptions: a thread
/// is started for every key `start_push_thread` lists, and every key
/// `try_thread_gc` then lists is stopped and forgotten. Afterwards the keys with
/// a push thread are exactly the keys with an exclusive subscription.
pub proof fn lemma_tick_aligns_threads(subs: Set<Seq<char>>, threads: Set<Seq<char>>)
    ensures
        ({
            let started = threads.union(subs.difference(threads));
            let stopped = started.difference(subs);
            started.difference(stopped) == subs
        }),
{
    let started = threads.union(subs.difference(threads));
    let stopped = started.difference(subs);
    assert(started.difference(stopped) =~= subs);
}

/// One scheduler tick seen on the manager: `started` holds the keys that
/// `start_push_thread` listed, each then given a thread; `stopped` the keys that
/// `try_thread_gc` then listed, each stopped and forgotten. Afterwards the keys
/// with a push thread are exactly the subscribed keys, and a thread that ran
/// before and still runs keeps its handle.
pub proof fn lemma_tick_registers_threads<T>(
    m0: SubscribeManager<T>,
    m1: SubscribeManager<T>,
    m2: SubscribeManager<T>,
    started: Set<Seq<char>>,
    stopped: Set<Seq<char>>,
)
    requires
        forall|k: Seq<char>| #[trigger] started.contains(k) == (m0.subscriptions().contains_key(k)
            && !m0.threads().contains_key(k)),
        m1.subscriptions() == m0.subscriptions(),
        m1.threads().dom() == m0.threads().dom().union(started),
        forall|k: Seq<char>| #[trigger] m0.threads().contains_key(k) ==> m1.threads()[k] == m0.threads()[k],
        forall|k: Seq<char>| #[trigger] stopped.contains(k) == (m1.threads().contains_key(k)
            && !m1.subscriptions().contains_key(k)),
        m2.subscriptions() == m1.subscriptions(),
        m2.threads() == m1.threads().remove_keys(stopped),
    ensures
        m2.threads().dom() == m2.subscriptions().dom(),
        forall|k: Seq<char>| #[trigger]
            m0.threads().contains_key(k) && m2.threads().contains_key(k) ==> m2.threads()[k]
                == m0.threads()[k],
{
    assert(m2.threads().dom() =~= m2.subscriptions().dom());
}

/// How a record that is to be delivered goes out.
#[derive(Clone, Copy, Debug, PartialEq, Eq, Structural)]
pub enum DispatchStep {
    /// QoS 0: write once to the connection.
    SendOnce,
    /// QoS 1 or 2, and every packet id is in flight: wait and try again.
    WaitPacketId,
    /// The push thread was told to stop while waiting: give the packet id back, if one was taken.
    Abandon(Option<u16>),
    /// Run the QoS 1 exchange with this packet id.
    Deliver1(u16),
    /// Run the QoS 2 exchange with this packet id.
    Deliver2(u16),
}

/// Decides how a record goes out: `pkid` is the packet id the ack-wait table
/// gave (asked for only at QoS 1 or 2), `stop` whether the stop signal was seen.
pub fn dispatch_step(qos: QoS, stop: bool, pkid: Option<u16>) -> (r: DispatchStep)
    ensures
        r == match qos {
            QoS::AtMostOnce => DispatchStep::SendOnce,
            _ => if stop {
                DispatchStep::Abandon(pkid)
            } else {
                match pkid {
                    None => DispatchStep::WaitPacketId,
                    Some(p) => if qos == QoS::AtLeastOnce {
                        DispatchStep::Deliver1(p)
                    } else {
                        DispatchStep::Deliver2(p)
                    },
                }
            },
        },
{
    match qos {
        QoS::AtMostOnce => DispatchStep::SendOnce,
        _ => {
            if stop {
                return DispatchStep::Abandon(pkid);
            }
            match pkid {
                None => DispatchStep::WaitPacketId,
                Some(p) => {
                    if qos == QoS::AtLeastOnce {
                        DispatchStep::Deliver1(p)
                    } else {
                        DispatchStep::Deliver2(p)
                    }
                },
            }
        },
    }
}

impl AckWaitTable {
    /// Ends a QoS 1 or 2 delivery: a completed exchange releases its ack-wait
    /// entry; one that failed keeps it until the session is torn down.
    pub fn finish_delivery(&mut self, client_id: &String, pkid: u16, completed: bool)
        ensures
            final(self).waits() == if completed {
                old(self).waits().remove(ack_key(client_id@, pkid))
            } else {
                old(self).waits()
            },
    {
        if completed {
            self.remove_ack_packet(client_id, pkid);
        }
    }
}

} // verus!
