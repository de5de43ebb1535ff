use vstd::prelude::*;

use dashmap::DashMap;

use crate::keyed::KeyMap;
use crate::tables::{topic_entries, topic_table_get, topic_table_insert, topic_table_keys, topic_table_new};
use crate::topic_match::{path_regex_match, topic_matches};

verus! {

#[derive(Clone, Copy, Debug, PartialEq, Eq, Structural)]
pub enum QoS {
    AtMostOnce,
    AtLeastOnce,
    ExactlyOnce,
}

#[derive(Clone, Copy, Debug, PartialEq, Eq, Structural)]
pub enum MQTTProtocol {
    MQTT3,
    MQTT4,
    MQTT5,
}

#[derive(Clone, Copy, Debug, PartialEq, Eq, Structural)]
pub enum RetainForwardRule {
    OnEverySubscribe,
    OnNewSubscribe,
    Never,
}

/// One filter of a SUBSCRIBE packet.
pub struct Filter {
    pub path: String,
    pub qos: QoS,
    pub nolocal: bool,
    pub preserve_retain: bool,
    pub retain_forward_rule: RetainForwardRule,
}

/// A SUBSCRIBE packet.
pub struct Subscribe {
    pub packet_identifier: u16,
    pub filters: Vec<Filter>,
}

pub struct SubscribeProperties {
    pub subscription_identifier: Option<usize>,
}

/// A client's subscription to one topic.
pub struct Subscriber {
    pub protocol: MQTTProtocol,
    pub client_id: String,
    pub sub_path: String,
    pub topic_id: String,
    pub topic_name: String,
    pub packet_identifier: u16,
    pub qos: QoS,
    pub nolocal: bool,
    pub preserve_retain: bool,
    pub subscription_identifier: Option<usize>,
}

impl Subscriber {
    pub fn duplicate(&self) -> (r: Subscriber)
        ensures
            r == *self,
    {
        Subscriber {
            protocol: self.protocol,
            client_id: self.client_id.clone(),
            sub_path: self.sub_path.clone(),
            topic_id: self.topic_id.clone(),
            topic_name: self.topic_name.clone(),
            packet_identifier: self.packet_identifier,
            qos: self.qos,
            nolocal: self.nolocal,
            preserve_retain: self.preserve_retain,
            subscription_identifier: self.subscription_identifier,
        }
    }
}

/// A topic known to the broker.
pub struct Topic {
    pub topic_id: String,
    pub topic_name: String,
}

impl Topic {
    /// A topic whose id is its name.
    pub fn new(topic_name: &String) -> (r: Topic)
        ensures
            r.topic_id == *topic_name,
            r.topic_name == *topic_name,
    {
        Topic { topic_id: topic_name.clone(), topic_name: topic_name.clone() }
    }
}

/// The topics the broker knows, by id.
pub struct MetadataCacheManager {
    pub cluster_name: String,
    topic_id_name: DashMap<String, String>,
}

impl MetadataCacheManager {
    /// Topic id to topic name.
    pub closed spec fn topics(&self) -> Map<Seq<char>, Seq<char>> {
        Map::new(
            |k| topic_entries(self.topic_id_name).contains_key(k),
            |k| topic_entries(self.topic_id_name)[k]@,
        )
    }

    pub fn new(cluster_name: String) -> (r: MetadataCacheManager)
        ensures
            r.topics() == Map::<Seq<char>, Seq<char>>::empty(),
    {
        let r = MetadataCacheManager { cluster_name, topic_id_name: topic_table_new() };
        assert(r.topics() =~= Map::empty());
        r
    }

    pub fn set_topic(&mut self, topic_name: &String, topic: &Topic)
        ensures
            final(self).topics() == old(self).topics().insert(topic.topic_id@, topic_name@),
    {
        topic_table_insert(&mut self.topic_id_name, topic.topic_id.clone(), topic_name.clone());
        assert(self.topics() =~= old(self).topics().insert(topic.topic_id@, topic_name@));
    }
}

/// The position of the last filter among the first `n` whose path matches `topic`.
pub open spec fn last_match(filters: Seq<Filter>, topic: Seq<char>, n: int) -> Option<int>
    decreases n,
{
    if n <= 0 {
        None
    } else if topic_matches(topic, filters[n - 1].path@) {
        Some(n - 1)
    } else {
        last_match(filters, topic, n - 1)
    }
}

proof fn lemma_last_match_bound(filters: Seq<Filter>, topic: Seq<char>, n: int)
    ensures
        last_match(filters, topic, n) is Some ==> 0 <= last_match(filters, topic, n)->0 < n,
    decreases n,
{
    if n > 0 {
        lemma_last_match_bound(filters, topic, n - 1);
    }
}

pub open spec fn last_matching_filter(filters: Seq<Filter>, topic: Seq<char>) -> Option<int> {
    last_match(filters, topic, filters.len() as int)
}

/// `s` is the subscriber that filter `f` of `subscribe` gives for a topic.
pub open spec fn subscriber_from(
    s: Subscriber,
    protocol: MQTTProtocol,
    client_id: Seq<char>,
    topic_id: Seq<char>,
    topic_name: Seq<char>,
    subscribe: Subscribe,
    f: Filter,
    sub_identifier: Option<usize>,
) -> bool {
    &&& s.protocol == protocol
    &&& s.client_id@ == client_id
    &&& s.sub_path@ == f.path@
    &&& s.topic_id@ == topic_id
    &&& s.topic_name@ == topic_name
    &&& s.packet_identifier == subscribe.packet_identifier
    &&& s.qos == f.qos
    &&& s.nolocal == f.nolocal
    &&& s.preserve_retain == f.preserve_retain
    &&& s.subscription_identifier == sub_identifier
}

/// The subscribers of one topic after a SUBSCRIBE: `base` with the client added
/// when a filter matches the topic's name, as the last matching filter says.
pub open spec fn parsed_topic(
    base: Map<Seq<char>, Subscriber>,
    after: Map<Seq<char>, Subscriber>,
    protocol: MQTTProtocol,
    client_id: Seq<char>,
    topic_id: Seq<char>,
    topic_name: Seq<char>,
    subscribe: Subscribe,
    sub_identifier: Option<usize>,
) -> bool {
    match last_matching_filter(subscribe.filters@, topic_name) {
        Some(fi) => {
            &&& after.contains_key(client_id)
            &&& after == base.insert(client_id, after[client_id])
            &&& subscriber_from(
                after[client_id],
                protocol,
                client_id,
                topic_id,
                topic_name,
                subscribe,
                subscribe.filters@[fi],
                sub_identifier,
            )
        },
        None => after == base,
    }
}

pub open spec fn entry_or_empty<V>(m: Map<Seq<char>, Map<Seq<char>, V>>, k: Seq<char>) -> Map<
    Seq<char>,
    V,
> {
    if m.contains_key(k) {
        m[k]
    } else {
        Map::empty()
    }
}

/// The topics of a client after a SUBSCRIBE: `base` with every topic among
/// `topics` that a filter matches stamped with `now`.
pub open spec fn client_topics_after(
    base: Map<Seq<char>, u64>,
    topics: Map<Seq<char>, Seq<char>>,
    done: Set<Seq<char>>,
    filters: Seq<Filter>,
    now: u64,
) -> Map<Seq<char>, u64> {
    Map::new(
        |t: Seq<char>|
            base.contains_key(t) || (done.contains(t) && topics.contains_key(t)
                && last_matching_filter(filters, topics[t]).is_some()),
        |t: Seq<char>|
            if done.contains(t) && topics.contains_key(t) && last_matching_filter(
                filters,
                topics[t],
            ).is_some() {
                now
            } else {
                base[t]
            },
    )
}

pub open spec fn sub_identifier_of(p: Option<SubscribeProperties>) -> Option<usize> {
    match p {
        Some(props) => props.subscription_identifier,
        None => None,
    }
}

/// The subscription indexes of the broker.
pub struct SubScribeManager {
    /// topic id -> client id -> subscriber
    topic_subscribe: KeyMap<String, KeyMap<String, Subscriber>>,
    /// client id -> topic id -> subscribe time
    client_subscribe: KeyMap<String, KeyMap<String, u64>>,
    metadata_cache: MetadataCacheManager,
}

impl SubScribeManager {
    pub closed spec fn wf(&self) -> bool {
        &&& self.topic_subscribe.wf()
        &&& self.client_subscribe.wf()
        &&& forall|k: Seq<char>| #[trigger]
            self.topic_subscribe@.contains_key(k) ==> self.topic_subscribe@[k].wf()
        &&& forall|k: Seq<char>| #[trigger]
            self.client_subscribe@.contains_key(k) ==> self.client_subscribe@[k].wf()
    }

    pub closed spec fn metadata(&self) -> MetadataCacheManager {
        self.metadata_cache
    }

    /// topic id -> client id -> subscriber
    pub closed spec fn topic_subs(&self) -> Map<Seq<char>, Map<Seq<char>, Subscriber>> {
        Map::new(|k| self.topic_subscribe@.contains_key(k), |k| self.topic_subscribe@[k]@)
    }

    /// client id -> topic id -> subscribe time
    pub closed spec fn client_subs(&self) -> Map<Seq<char>, Map<Seq<char>, u64>> {
        Map::new(|k| self.client_subscribe@.contains_key(k), |k| self.client_subscribe@[k]@)
    }

    pub fn new(metadata_cache: MetadataCacheManager) -> (r: SubScribeManager)
        ensures
            r.wf(),
            r.topic_subs() == Map::<Seq<char>, Map<Seq<char>, Subscriber>>::empty(),
            r.client_subs() == Map::<Seq<char>, Map<Seq<char>, u64>>::empty(),
            r.metadata() == metadata_cache,
    {
        let r = SubScribeManager {
            topic_subscribe: KeyMap::new(),
            client_subscribe: KeyMap::new(),
            metadata_cache,
        };
        assert(r.topic_subs() =~= Map::empty());
        assert(r.client_subs() =~= Map::empty());
        r
    }

    pub fn topic_subscribe_len(&self) -> (r: usize)
        requires
            self.wf(),
        ensures
            r == self.topic_subs().len(),
    {
        assert(self.topic_subs().dom() =~= self.topic_subscribe@.dom());
        self.topic_subscribe.len()
    }

    pub fn topic_subscribe_contains(&self, topic_id: &String) -> (r: bool)
        requires
            self.wf(),
        ensures
            r == self.topic_subs().contains_key(topic_id@),
    {
        self.topic_subscribe.contains_key(topic_id)
    }

    /// The number of subscribers of a topic, if the topic has an index.
    pub fn topic_subscriber_count(&self, topic_id: &String) -> (r: Option<usize>)
        requires
            self.wf(),
        ensures
            r.is_some() == self.topic_subs().contains_key(topic_id@),
            r.is_some() ==> r.unwrap() == self.topic_subs()[topic_id@].len(),
    {
        match self.topic_subscribe.get(topic_id) {
            Some(m) => Some(m.len()),
            None => None,
        }
    }

    pub fn get_subscriber(&self, topic_id: &String, client_id: &String) -> (r: Option<&Subscriber>)
        requires
            self.wf(),
        ensures
            r.is_some() == (self.topic_subs().contains_key(topic_id@)
                && self.topic_subs()[topic_id@].contains_key(client_id@)),
            r.is_some() ==> *r.unwrap() == self.topic_subs()[topic_id@][client_id@],
    {
        match self.topic_subscribe.get(topic_id) {
            Some(m) => m.get(client_id),
            None => None,
        }
    }

    /// The subscribe time of a client on a topic.
    pub fn get_subscribe_time(&self, client_id: &String, topic_id: &String) -> (r: Option<u64>)
        requires
            self.wf(),
        ensures
            r.is_some() == (self.client_subs().contains_key(client_id@)
                && self.client_subs()[client_id@].contains_key(topic_id@)),
            r.is_some() ==> r.unwrap() == self.client_subs()[client_id@][topic_id@],
    {
        match self.client_subscribe.get(client_id) {
            Some(m) => match m.get(topic_id) {
                Some(t) => Some(*t),
                None => None,
            },
            None => None,
        }
    }

    fn find_last_match(filters: &Vec<Filter>, topic_name: &String) -> (r: Option<usize>)
        ensures
            r.is_some() == last_matching_filter(filters@, topic_name@).is_some(),
            r.is_some() ==> last_matching_filter(filters@, topic_name@) == Some(r.unwrap() as int),
            r.is_some() ==> r.unwrap() < filters@.len(),
    {
        proof {
            lemma_last_match_bound(filters@, topic_name@, filters@.len() as int);
        }
        let mut k: usize = filters.len();
        while k > 0
            invariant
                k <= filters@.len(),
                last_match(filters@, topic_name@, filters@.len() as int) == last_match(
                    filters@,
                    topic_name@,
                    k as int,
                ),
            decreases k,
        {
            if path_regex_match(topic_name.as_str(), filters[k - 1].path.as_str()) {
                return Some(k - 1);
            }
            k = k - 1;
        }
        None
    }

    /// Records `client_id` as a subscriber of every known topic that one of the
    /// filters matches; the last matching filter gives the subscription's options.
    /// Every known topic gets an index, and the client one when a topic is known.
    pub fn parse_subscribe(
        &mut self,
        protocol: MQTTProtocol,
        client_id: String,
        subscribe: &Subscribe,
        subscribe_properties: Option<SubscribeProperties>,
        now: u64,
    )
        requires
            old(self).wf(),
        ensures
            final(self).wf(),
            final(self).metadata() == old(self).metadata(),
            forall|t: Seq<char>| #[trigger]
                final(self).topic_subs().contains_key(t) == (old(self).topic_subs().contains_key(t)
                    || old(self).metadata().topics().contains_key(t)),
            forall|t: Seq<char>|
                #[trigger] old(self).topic_subs().contains_key(t)
                    && !old(self).metadata().topics().contains_key(t)
                    ==> final(self).topic_subs()[t] == old(self).topic_subs()[t],
            forall|t: Seq<char>| #[trigger]
                old(self).metadata().topics().contains_key(t) ==> parsed_topic(
                    entry_or_empty(old(self).topic_subs(), t),
                    final(self).topic_subs()[t],
                    protocol,
                    client_id@,
                    t,
                    old(self).metadata().topics()[t],
                    *subscribe,
                    sub_identifier_of(subscribe_properties),
                ),
            forall|c: Seq<char>| #[trigger]
                final(self).client_subs().contains_key(c) == (old(self).client_subs().contains_key(c)
                    || (c == client_id@ && exists|t: Seq<char>|
                    old(self).metadata().topics().contains_key(t))),
            forall|c: Seq<char>|
                #[trigger] old(self).client_subs().contains_key(c) && c != client_id@
                    ==> final(self).client_subs()[c] == old(self).client_subs()[c],
            final(self).client_subs().contains_key(client_id@) ==> final(self).client_subs()[client_id@]
                == client_topics_after(
                entry_or_empty(old(self).client_subs(), client_id@),
                old(self).metadata().topics(),
                old(self).metadata().topics().dom(),
                subscribe.filters@,
                now,
            ),
    {
        let sub_identifier = match subscribe_properties {
            Some(properties) => properties.subscription_identifier,
            None => None,
        };
        let topic_ids = topic_table_keys(&self.metadata_cache.topic_id_name);
        let ghost old_topics = old(self).topic_subs();
        let ghost old_clients = old(self).client_subs();
        let ghost meta = old(self).metadata_cache.topics();
        let ghost filters = subscribe.filters@;
        let ghost base_c = entry_or_empty(old_clients, client_id@);
        let ghost mut done: Set<Seq<char>> = Set::empty();
        let n = topic_ids.len();
        let mut i: usize = 0;
        while i < n
            invariant
                self.wf(),
                self.metadata_cache == old(self).metadata_cache,
                old_topics == old(self).topic_subs(),
                old_clients == old(self).client_subs(),
                meta == self.metadata_cache.topics(),
                filters == subscribe.filters@,
                base_c == entry_or_empty(old_clients, client_id@),
                n == topic_ids@.len(),
                i <= n,
                sub_identifier == sub_identifier_of(subscribe_properties),
                forall|j: int| 0 <= j < n ==> meta.contains_key(#[trigger] topic_ids@[j]@),
                forall|a: int, b: int|
                    0 <= a < b < n ==> #[trigger] topic_ids@[a]@ != #[trigger] topic_ids@[b]@,
                forall|t: Seq<char>| #[trigger] done.contains(t) == (exists|j: int|
                    0 <= j < i && topic_ids@[j]@ == t),
                forall|t: Seq<char>| #[trigger] done.contains(t) ==> meta.contains_key(t),
                forall|t: Seq<char>| #[trigger]
                    self.topic_subs().contains_key(t) == (old_topics.contains_key(t) || done.contains(t)),
                forall|t: Seq<char>|
                    #[trigger] old_topics.contains_key(t) && !done.contains(t) ==> self.topic_subs()[t]
                        == old_topics[t],
                forall|t: Seq<char>| #[trigger]
                    done.contains(t) ==> parsed_topic(
                        entry_or_empty(old_topics, t),
                        self.topic_subs()[t],
                        protocol,
                        client_id@,
                        t,
                        meta[t],
                        *subscribe,
                        sub_identifier,
                    ),
                forall|c: Seq<char>| #[trigger]
                    self.client_subs().contains_key(c) == (old_clients.contains_key(c) || (c
                        == client_id@ && i > 0)),
                forall|c: Seq<char>|
                    #[trigger] old_clients.contains_key(c) && c != client_id@
                        ==> self.client_subs()[c] == old_clients[c],
                self.client_subs().contains_key(client_id@) ==> self.client_subs()[client_id@]
                    == client_topics_after(base_c, meta, done, filters, now),
            decreases n - i,
        {
            let topic_id = topic_ids[i].clone();
            let topic_name = match topic_table_get(&self.metadata_cache.topic_id_name, &topic_id) {
                Some(name) => name,
                None => String::new(),
            };
            let ghost t = topic_id@;
            assert(meta.contains_key(t));
            assert(topic_name@ == meta[t]);
            assert(!done.contains(t)) by {
                if done.contains(t) {
                    let j = choose|j: int| 0 <= j < i && topic_ids@[j]@ == t;
                    assert(topic_ids@[j]@ != topic_ids@[i as int]@);
                }
            }
            let found = Self::find_last_match(&subscribe.filters, &topic_name);
            // the topic's index
            let ghost before_topics = self.topic_subs();
            assert(before_topics.contains_key(t) == old_topics.contains_key(t));
            assert(old_topics.contains_key(t) ==> before_topics[t] == old_topics[t]);
            assert(before_topics.contains_key(t) ==> self.topic_subscribe@[t]@ == before_topics[t]);
            let mut tp_sub = match self.topic_subscribe.remove(&topic_id) {
                Some(m) => m,
                None => KeyMap::new(),
            };
            assert(tp_sub@ == entry_or_empty(old_topics, t));
            if let Some(fi) = found {
                let f = &subscribe.filters[fi];
                let sub = Subscriber {
                    protocol,
                    client_id: client_id.clone(),
                    sub_path: f.path.clone(),
                    topic_id: topic_id.clone(),
                    topic_name: topic_name.clone(),
                    packet_identifier: subscribe.packet_identifier,
                    qos: f.qos,
                    nolocal: f.nolocal,
                    preserve_retain: f.preserve_retain,
                    subscription_identifier: sub_identifier,
                };
                let ghost base = tp_sub@;
                let ghost sv = sub;
                assert(subscriber_from(
                    sv,
                    protocol,
                    client_id@,
                    t,
                    meta[t],
                    *subscribe,
                    subscribe.filters@[fi as int],
                    sub_identifier,
                ));
                tp_sub.insert(client_id.clone(), sub);
                assert(tp_sub@[client_id@] == sv);
                assert(tp_sub@ == base.insert(client_id@, tp_sub@[client_id@]));
            }
            let ghost new_entry = tp_sub@;
            assert(parsed_topic(
                entry_or_empty(old_topics, t),
                new_entry,
                protocol,
                client_id@,
                t,
                meta[t],
                *subscribe,
                sub_identifier,
            ));
            self.topic_subscribe.insert(topic_id.clone(), tp_sub);
            assert(self.topic_subs() =~= before_topics.insert(t, new_entry));
            // the client's index
            let ghost before_clients = self.client_subs();
            let mut client_sub = match self.client_subscribe.remove(&client_id) {
                Some(m) => m,
                None => KeyMap::new(),
            };
            assert(client_sub@ == client_topics_after(base_c, meta, done, filters, now)) by {
                if !before_clients.contains_key(client_id@) {
                    assert(!old_clients.contains_key(client_id@));
                    assert(client_topics_after(base_c, meta, done, filters, now) =~= Map::empty());
                }
            }
            if found.is_some() {
                client_sub.insert(topic_id.clone(), now);
            }
            let ghost new_c = client_sub@;
            self.client_subscribe.insert(client_id.clone(), client_sub);
            assert(self.client_subs() =~= before_clients.insert(client_id@, new_c));
            proof {
                let old_done = done;
                done = done.insert(t);
                assert(new_c =~= client_topics_after(base_c, meta, done, filters, now)) by {
                    assert(client_topics_after(base_c, meta, old_done, filters, now).dom().finite() || true);
                }
                assert forall|t2: Seq<char>| #[trigger] done.contains(t2) == (exists|j: int|
                    0 <= j < i + 1 && topic_ids@[j]@ == t2) by {
                    if t2 == t {
                        assert(topic_ids@[i as int]@ == t2);
                    } else {
                        if exists|j: int| 0 <= j < i + 1 && topic_ids@[j]@ == t2 {
                            let j = choose|j: int| 0 <= j < i + 1 && topic_ids@[j]@ == t2;
                            assert(j < i);
                            assert(old_done.contains(t2));
                        }
                        if done.contains(t2) {
                            assert(old_done.contains(t2));
                            let j = choose|j: int| 0 <= j < i && topic_ids@[j]@ == t2;
                            assert(0 <= j < i + 1 && topic_ids@[j]@ == t2);
                        }
                    }
                }
            }
            i = i + 1;
        }
        proof {
            assert(done =~= meta.dom()) by {
                assert forall|t: Seq<char>| #[trigger] meta.contains_key(t) implies done.contains(t) by {
                    assert(topic_entries(self.metadata_cache.topic_id_name).contains_key(t));
                    let j = choose|j: int| 0 <= j < n && topic_ids@[j]@ == t;
                }
            }
            if exists|t: Seq<char>| meta.contains_key(t) {
                let t = choose|t: Seq<char>| meta.contains_key(t);
                assert(done.contains(t));
                assert(i > 0);
            }
            if i > 0 {
                assert(meta.contains_key(topic_ids@[0]@));
            }
        }
    }

    pub fn remove_topic(&mut self, topic_id: &String)
        requires
            old(self).wf(),
        ensures
            final(self).wf(),
            final(self).metadata() == old(self).metadata(),
            final(self).topic_subs() == old(self).topic_subs().remove(topic_id@),
            final(self).client_subs() == old(self).client_subs(),
    {
        self.topic_subscribe.remove(topic_id);
        assert(self.topic_subs() =~= old(self).topic_subs().remove(topic_id@));
        assert(self.client_subs() =~= old(self).client_subs());
    }

    /// Removes `client_id` from the subscribers of the topic at position `i`.
    fn remove_client_at(&mut self, i: usize, client_id: &String)
        requires
            old(self).wf(),
            i < old(self).topic_subscribe@.len(),
        ensures
            final(self).wf(),
            final(self).metadata() == old(self).metadata(),
            final(self).client_subs() == old(self).client_subs(),
            final(self).topic_subs() == old(self).topic_subs().insert(
                old(self).topic_subscribe.key_at(i as int),
                old(self).topic_subs()[old(self).topic_subscribe.key_at(i as int)].remove(client_id@),
            ),
            forall|j: int|
                0 <= j < old(self).topic_subscribe@.len() ==> #[trigger] final(self).topic_subscribe.key_at(j)
                    == old(self).topic_subscribe.key_at(j),
            final(self).topic_subscribe@.len() == old(self).topic_subscribe@.len(),
    {
        proof {
            self.topic_subscribe.lemma_positions();
        }
        let mut inner = self.topic_subscribe.replace_at(i, KeyMap::new());
        inner.remove(client_id);
        self.topic_subscribe.replace_at(i, inner);
        let ghost k = old(self).topic_subscribe.key_at(i as int);
        assert(self.topic_subscribe@.dom() =~= old(self).topic_subscribe@.dom());
        assert(self.topic_subs() =~= old(self).topic_subs().insert(
            k,
            old(self).topic_subs()[k].remove(client_id@),
        ));
        assert(self.client_subs() =~= old(self).client_subs());
    }

    /// Removes `client_id` from the subscribers of each topic in `topic_ids`.
    pub fn remove_subscribe(&mut self, client_id: &String, topic_ids: &Vec<String>)
        requires
            old(self).wf(),
        ensures
            final(self).wf(),
            final(self).metadata() == old(self).metadata(),
            final(self).client_subs() == old(self).client_subs(),
            final(self).topic_subs().dom() == old(self).topic_subs().dom(),
            forall|t: Seq<char>| #[trigger]
                old(self).topic_subs().contains_key(t) ==> final(self).topic_subs()[t] == if exists|j: int|
                    0 <= j < topic_ids@.len() && topic_ids@[j]@ == t {
                    old(self).topic_subs()[t].remove(client_id@)
                } else {
                    old(self).topic_subs()[t]
                },
    {
        let mut i: usize = 0;
        while i < topic_ids.len()
            invariant
                self.wf(),
                self.metadata() == old(self).metadata(),
                self.client_subs() == old(self).client_subs(),
                i <= topic_ids@.len(),
                self.topic_subs().dom() == old(self).topic_subs().dom(),
                forall|t: Seq<char>| #[trigger]
                    old(self).topic_subs().contains_key(t) ==> self.topic_subs()[t] == if exists|j: int|
                        0 <= j < i && topic_ids@[j]@ == t {
                        old(self).topic_subs()[t].remove(client_id@)
                    } else {
                        old(self).topic_subs()[t]
                    },
            decreases topic_ids@.len() - i,
        {
            let ghost before = self.topic_subs();
            let ghost t = topic_ids@[i as int]@;
            let topic_id = &topic_ids[i];
            let inner = self.topic_subscribe.remove(topic_id);
            match inner {
                Some(mut m) => {
                    m.remove(client_id);
                    self.topic_subscribe.insert(topic_id.clone(), m);
                    assert(self.topic_subs() =~= before.insert(t, before[t].remove(client_id@)));
                },
                None => {
                    assert(self.topic_subs() =~= before);
                },
            }
            assert forall|t2: Seq<char>| #[trigger]
                old(self).topic_subs().contains_key(t2) implies self.topic_subs()[t2] == if exists|j: int|
                    0 <= j < i + 1 && topic_ids@[j]@ == t2 {
                    old(self).topic_subs()[t2].remove(client_id@)
                } else {
                    old(self).topic_subs()[t2]
                } by {
                if t2 == t {
                    assert(topic_ids@[i as int]@ == t2);
                    if exists|j: int| 0 <= j < i && topic_ids@[j]@ == t2 {
                        assert(old(self).topic_subs()[t2].remove(client_id@).remove(client_id@)
                            =~= old(self).topic_subs()[t2].remove(client_id@));
                    }
                } else {
                    if exists|j: int| 0 <= j < i + 1 && topic_ids@[j]@ == t2 {
                        let j = choose|j: int| 0 <= j < i + 1 && topic_ids@[j]@ == t2;
                        assert(j < i);
                    }
                }
            }
            assert(self.topic_subs().dom() =~= old(self).topic_subs().dom());
            i = i + 1;
        }
    }

    /// Removes `client_id` from the subscribers of every topic.
    pub fn remove_connect_subscribe(&mut self, client_id: &String)
        requires
            old(self).wf(),
        ensures
            final(self).wf(),
            final(self).metadata() == old(self).metadata(),
            final(self).client_subs() == old(self).client_subs(),
            final(self).topic_subs().dom() == old(self).topic_subs().dom(),
            forall|t: Seq<char>| #[trigger]
                old(self).topic_subs().contains_key(t) ==> final(self).topic_subs()[t]
                    == old(self).topic_subs()[t].remove(client_id@),
    {
        proof {
            self.topic_subscribe.lemma_positions();
        }
        let n = self.topic_subscribe.len();
        let mut i: usize = 0;
        while i < n
            invariant
                self.wf(),
                self.metadata() == old(self).metadata(),
                self.client_subs() == old(self).client_subs(),
                n == self.topic_subscribe@.len(),
                n == old(self).topic_subscribe@.len(),
                i <= n,
                self.topic_subs().dom() == old(self).topic_subs().dom(),
                forall|j: int| 0 <= j < n ==> #[trigger] self.topic_subscribe.key_at(j) == old(self).topic_subscribe.key_at(j),
                forall|j: int| 0 <= j < n ==> old(self).topic_subscribe@.contains_key(#[trigger] old(self).topic_subscribe.key_at(j)),
                forall|k: Seq<char>| #[trigger] old(self).topic_subscribe@.contains_key(k) ==> exists|j: int|
                    0 <= j < n && old(self).topic_subscribe.key_at(j) == k,
                forall|a: int, b: int|
                    0 <= a < n && 0 <= b < n && a != b ==> #[trigger] old(self).topic_subscribe.key_at(a)
                        != #[trigger] old(self).topic_subscribe.key_at(b),
                forall|t: Seq<char>| #[trigger]
                    old(self).topic_subs().contains_key(t) ==> self.topic_subs()[t] == if exists|j: int|
                        0 <= j < i && old(self).topic_subscribe.key_at(j) == t {
                        old(self).topic_subs()[t].remove(client_id@)
                    } else {
                        old(self).topic_subs()[t]
                    },
            decreases n - i,
        {
            let ghost t = old(self).topic_subscribe.key_at(i as int);
            self.remove_client_at(i, client_id);
            assert forall|t2: Seq<char>| #[trigger]
                old(self).topic_subs().contains_key(t2) implies self.topic_subs()[t2] == if exists|j: int|
                    0 <= j < i + 1 && old(self).topic_subscribe.key_at(j) == t2 {
                    old(self).topic_subs()[t2].remove(client_id@)
                } else {
                    old(self).topic_subs()[t2]
                } by {
                if t2 == t {
                    assert(old(self).topic_subscribe.key_at(i as int) == t2);
                    assert(!(exists|j: int| 0 <= j < i && old(self).topic_subscribe.key_at(j) == t2));
                } else {
                    if exists|j: int| 0 <= j < i + 1 && old(self).topic_subscribe.key_at(j) == t2 {
                        let j = choose|j: int| 0 <= j < i + 1 && old(self).topic_subscribe.key_at(j) == t2;
                        assert(j < i);
                    }
                }
            }
            i = i + 1;
        }
        assert forall|t: Seq<char>| #[trigger]
            old(self).topic_subs().contains_key(t) implies self.topic_subs()[t]
                == old(self).topic_subs()[t].remove(client_id@) by {
            assert(old(self).topic_subscribe@.contains_key(t));
            let j = choose|j: int| 0 <= j < n && old(self).topic_subscribe.key_at(j) == t;
        }
    }
}

} // verus!
