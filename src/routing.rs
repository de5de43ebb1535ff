use vstd::prelude::*;

use dashmap::DashMap;

use crate::keyed::MapKey;
use crate::tables::{leader_entries, leader_table_get, leader_table_insert, leader_table_new};
use crate::text::{contains_seq, push_char, text_contains};

verus! {

/// The services of the placement center.
#[derive(Clone, Copy, Debug, PartialEq, Eq, Structural, Hash)]
pub enum PlacementCenterService {
    Journal,
    Kv,
    Placement,
    Mqtt,
    OpenRaft,
}

/// The interfaces of the placement center services.
#[derive(Clone, Copy, Debug, PartialEq, Eq, Structural, Hash)]
pub enum PlacementCenterInterface {
    KvSet,
    Get,
    Delete,
    Exists,
    ClusterStatus,
    ListNode,
    RegisterNode,
    UnRegisterNode,
    Heartbeat,
    SendRaftMessage,
    SendRaftConfChange,
    CreateShard,
    DeleteShard,
    CreateSegment,
    DeleteSegment,
    GetShareSubLeader,
    CreateUser,
    DeleteUser,
    ListUser,
    CreateTopic,
    DeleteTopic,
    ListTopic,
    SetTopicRetainMessage,
    CreateSession,
    DeleteSession,
    ListSession,
    UpdateSession,
    SaveLastWillMessage,
    SetReourceConfig,
    GetReourceConfig,
    DeleteReourceConfig,
    SetIdempotentData,
    ExistsIdempotentData,
    DeleteIdempotentData,
    CreateAcl,
    DeleteAcl,
    ListAcl,
    CreateBlackList,
    DeleteBlackList,
    ListBlackList,
    Vote,
    Append,
    Snapshot,
}

impl View for PlacementCenterService {
    type V = PlacementCenterService;

    open spec fn view(&self) -> PlacementCenterService {
        *self
    }
}

impl View for PlacementCenterInterface {
    type V = PlacementCenterInterface;

    open spec fn view(&self) -> PlacementCenterInterface {
        *self
    }
}

impl MapKey for PlacementCenterService {
    fn key_eq(&self, other: &PlacementCenterService) -> (r: bool) {
        *self == *other
    }

    fn key_copy(&self) -> (r: PlacementCenterService) {
        *self
    }
}

impl MapKey for PlacementCenterInterface {
    fn key_eq(&self, other: &PlacementCenterInterface) -> (r: bool) {
        *self == *other
    }

    fn key_copy(&self) -> (r: PlacementCenterInterface) {
        *self
    }
}

/// The interfaces whose requests must run on the Raft leader.
pub open spec fn in_forward_set(i: PlacementCenterInterface) -> bool {
    match i {
        PlacementCenterInterface::CreateUser
        | PlacementCenterInterface::DeleteUser
        | PlacementCenterInterface::CreateTopic
        | PlacementCenterInterface::DeleteTopic
        | PlacementCenterInterface::CreateSession
        | PlacementCenterInterface::DeleteSession
        | PlacementCenterInterface::UpdateSession
        | PlacementCenterInterface::CreateAcl
        | PlacementCenterInterface::DeleteAcl
        | PlacementCenterInterface::CreateBlackList
        | PlacementCenterInterface::DeleteBlackList => true,
        _ => false,
    }
}

pub open spec fn is_upper_ascii(c: char) -> bool {
    'A' <= c && c <= 'Z'
}

pub open spec fn lower_ascii(c: char) -> char {
    if is_upper_ascii(c) {
        ((c as u32) + 32) as char
    } else {
        c
    }
}

/// Snake case of the first `n` characters of a camel-case name: an underscore
/// before every upper-case letter but the first character, all letters lowered.
pub open spec fn snake_prefix(s: Seq<char>, n: int) -> Seq<char>
    decreases n,
{
    if n <= 0 {
        Seq::empty()
    } else if n - 1 > 0 && is_upper_ascii(s[n - 1]) {
        snake_prefix(s, n - 1).push('_').push(lower_ascii(s[n - 1]))
    } else {
        snake_prefix(s, n - 1).push(lower_ascii(s[n - 1]))
    }
}

pub open spec fn snake_case(s: Seq<char>) -> Seq<char> {
    snake_prefix(s, s.len() as int)
}

pub open spec fn inner_prefix() -> Seq<char> {
    seq!['i', 'n', 'n', 'e', 'r', '_']
}

fn lower_char(c: char) -> (r: char)
    ensures
        r == lower_ascii(c),
{
    if 'A' <= c && c <= 'Z' {
        let v: u32 = (c as u32) + 32;
        assert(v <= 'z' as u32);
        let b: u8 = v as u8;
        b as char
    } else {
        c
    }
}

/// The name of an interface, as written in the enum.
pub open spec fn interface_name(i: PlacementCenterInterface) -> Seq<char> {
    match i {
        PlacementCenterInterface::KvSet => "Set"@,
        PlacementCenterInterface::Get => "Get"@,
        PlacementCenterInterface::Delete => "Delete"@,
        PlacementCenterInterface::Exists => "Exists"@,
        PlacementCenterInterface::ClusterStatus => "ClusterStatus"@,
        PlacementCenterInterface::ListNode => "ListNode"@,
        PlacementCenterInterface::RegisterNode => "RegisterNode"@,
        PlacementCenterInterface::UnRegisterNode => "UnRegisterNode"@,
        PlacementCenterInterface::Heartbeat => "Heartbeat"@,
        PlacementCenterInterface::SendRaftMessage => "SendRaftMessage"@,
        PlacementCenterInterface::SendRaftConfChange => "SendRaftConfChange"@,
        PlacementCenterInterface::CreateShard => "CreateShard"@,
        PlacementCenterInterface::DeleteShard => "DeleteShard"@,
        PlacementCenterInterface::CreateSegment => "CreateSegment"@,
        PlacementCenterInterface::DeleteSegment => "DeleteSegment"@,
        PlacementCenterInterface::GetShareSubLeader => "GetShareSubLeader"@,
        PlacementCenterInterface::CreateUser => "CreateUser"@,
        PlacementCenterInterface::DeleteUser => "DeleteUser"@,
        PlacementCenterInterface::ListUser => "ListUser"@,
        PlacementCenterInterface::CreateTopic => "CreateTopic"@,
        PlacementCenterInterface::DeleteTopic => "DeleteTopic"@,
        PlacementCenterInterface::ListTopic => "ListTopic"@,
        PlacementCenterInterface::SetTopicRetainMessage => "SetTopicRetainMessage"@,
        PlacementCenterInterface::CreateSession => "CreateSession"@,
        PlacementCenterInterface::DeleteSession => "DeleteSession"@,
        PlacementCenterInterface::ListSession => "ListSession"@,
        PlacementCenterInterface::UpdateSession => "UpdateSession"@,
        PlacementCenterInterface::SaveLastWillMessage => "SaveLastWillMessage"@,
        PlacementCenterInterface::SetReourceConfig => "SetReourceConfig"@,
        PlacementCenterInterface::GetReourceConfig => "GetReourceConfig"@,
        PlacementCenterInterface::DeleteReourceConfig => "DeleteReourceConfig"@,
        PlacementCenterInterface::SetIdempotentData => "SetIdempotentData"@,
        PlacementCenterInterface::ExistsIdempotentData => "ExistsIdempotentData"@,
        PlacementCenterInterface::DeleteIdempotentData => "DeleteIdempotentData"@,
        PlacementCenterInterface::CreateAcl => "CreateAcl"@,
        PlacementCenterInterface::DeleteAcl => "DeleteAcl"@,
        PlacementCenterInterface::ListAcl => "ListAcl"@,
        PlacementCenterInterface::CreateBlackList => "CreateBlackList"@,
        PlacementCenterInterface::DeleteBlackList => "DeleteBlackList"@,
        PlacementCenterInterface::ListBlackList => "ListBlackList"@,
        PlacementCenterInterface::Vote => "Vote"@,
        PlacementCenterInterface::Append => "Append"@,
        PlacementCenterInterface::Snapshot => "Snapshot"@,
    }
}

impl PlacementCenterInterface {
    /// The variant's name, as written in the enum.
    pub fn variant_name(&self) -> (r: &'static str)
        ensures
            r@ == interface_name(*self),
    {
        match self {
            PlacementCenterInterface::KvSet => "Set",
            PlacementCenterInterface::Get => "Get",
            PlacementCenterInterface::Delete => "Delete",
            PlacementCenterInterface::Exists => "Exists",
            PlacementCenterInterface::ClusterStatus => "ClusterStatus",
            PlacementCenterInterface::ListNode => "ListNode",
            PlacementCenterInterface::RegisterNode => "RegisterNode",
            PlacementCenterInterface::UnRegisterNode => "UnRegisterNode",
            PlacementCenterInterface::Heartbeat => "Heartbeat",
            PlacementCenterInterface::SendRaftMessage => "SendRaftMessage",
            PlacementCenterInterface::SendRaftConfChange => "SendRaftConfChange",
            PlacementCenterInterface::CreateShard => "CreateShard",
            PlacementCenterInterface::DeleteShard => "DeleteShard",
            PlacementCenterInterface::CreateSegment => "CreateSegment",
            PlacementCenterInterface::DeleteSegment => "DeleteSegment",
            PlacementCenterInterface::GetShareSubLeader => "GetShareSubLeader",
            PlacementCenterInterface::CreateUser => "CreateUser",
            PlacementCenterInterface::DeleteUser => "DeleteUser",
            PlacementCenterInterface::ListUser => "ListUser",
            PlacementCenterInterface::CreateTopic => "CreateTopic",
            PlacementCenterInterface::DeleteTopic => "DeleteTopic",
            PlacementCenterInterface::ListTopic => "ListTopic",
            PlacementCenterInterface::SetTopicRetainMessage => "SetTopicRetainMessage",
            PlacementCenterInterface::CreateSession => "CreateSession",
            PlacementCenterInterface::DeleteSession => "DeleteSession",
            PlacementCenterInterface::ListSession => "ListSession",
            PlacementCenterInterface::UpdateSession => "UpdateSession",
            PlacementCenterInterface::SaveLastWillMessage => "SaveLastWillMessage",
            PlacementCenterInterface::SetReourceConfig => "SetReourceConfig",
            PlacementCenterInterface::GetReourceConfig => "GetReourceConfig",
            PlacementCenterInterface::DeleteReourceConfig => "DeleteReourceConfig",
            PlacementCenterInterface::SetIdempotentData => "SetIdempotentData",
            PlacementCenterInterface::ExistsIdempotentData => "ExistsIdempotentData",
            PlacementCenterInterface::DeleteIdempotentData => "DeleteIdempotentData",
            PlacementCenterInterface::CreateAcl => "CreateAcl",
            PlacementCenterInterface::DeleteAcl => "DeleteAcl",
            PlacementCenterInterface::ListAcl => "ListAcl",
            PlacementCenterInterface::CreateBlackList => "CreateBlackList",
            PlacementCenterInterface::DeleteBlackList => "DeleteBlackList",
            PlacementCenterInterface::ListBlackList => "ListBlackList",
            PlacementCenterInterface::Vote => "Vote",
            PlacementCenterInterface::Append => "Append",
            PlacementCenterInterface::Snapshot => "Snapshot",
        }
    }

    pub fn should_forward_to_leader(&self) -> (r: bool)
        ensures
            r == in_forward_set(*self),
    {
        match self {
            PlacementCenterInterface::CreateUser
            | PlacementCenterInterface::DeleteUser
            | PlacementCenterInterface::CreateTopic
            | PlacementCenterInterface::DeleteTopic
            | PlacementCenterInterface::CreateSession
            | PlacementCenterInterface::DeleteSession
            | PlacementCenterInterface::UpdateSession
            | PlacementCenterInterface::CreateAcl
            | PlacementCenterInterface::DeleteAcl
            | PlacementCenterInterface::CreateBlackList
            | PlacementCenterInterface::DeleteBlackList => true,
            _ => false,
        }
    }

    /// The name of the inner handler: `inner_` followed by the variant's name in snake case.
    pub fn get_inner_function_name(&self) -> (r: String)
        ensures
            r@ == inner_prefix() + snake_case(interface_name(*self)),
    {
        let name = self.variant_name();
        let n = name.unicode_len();
        let mut result = String::from_str("inner_");
        proof {
            reveal_strlit("inner_");
        }
        assert(result@ =~= inner_prefix() + snake_prefix(name@, 0));
        let mut i: usize = 0;
        while i < n
            invariant
                n == name@.len(),
                i <= n,
                result@ == inner_prefix() + snake_prefix(name@, i as int),
            decreases n - i,
        {
            let c = name.get_char(i);
            if i > 0 && 'A' <= c && c <= 'Z' {
                push_char(&mut result, '_');
            }
            push_char(&mut result, lower_char(c));
            i = i + 1;
            assert(result@ =~= inner_prefix() + snake_prefix(name@, i as int));
        }
        result
    }
}

/// Whether a request must be served by the leader: the forward set decides.
pub fn is_write_request(
    _service: &PlacementCenterService,
    interface: &PlacementCenterInterface,
) -> (r: bool)
    ensures
        r == in_forward_set(*interface),
{
    interface.should_forward_to_leader()
}

pub type LeaderKey = ((PlacementCenterService, PlacementCenterInterface), String);

/// Remembers, per service, interface and address, the leader address that a
/// forwardable error pointed to.
pub struct ClientPool {
    leader_addr: DashMap<LeaderKey, String>,
}

pub open spec fn leader_key(
    service: PlacementCenterService,
    interface: PlacementCenterInterface,
    addr: Seq<char>,
) -> ((PlacementCenterService, PlacementCenterInterface), Seq<char>) {
    ((service, interface), addr)
}

impl ClientPool {
    /// The leader cache: from (service, interface, address) to the leader's address.
    pub closed spec fn leaders(&self) -> Map<
        ((PlacementCenterService, PlacementCenterInterface), Seq<char>),
        Seq<char>,
    > {
        Map::new(
            |k| leader_entries(self.leader_addr).contains_key(k),
            |k| leader_entries(self.leader_addr)[k]@,
        )
    }

    pub fn new() -> (r: ClientPool)
        ensures
            r.leaders() == Map::<
                ((PlacementCenterService, PlacementCenterInterface), Seq<char>),
                Seq<char>,
            >::empty(),
    {
        let r = ClientPool { leader_addr: leader_table_new() };
        assert(r.leaders() =~= Map::empty());
        r
    }

    pub fn get_leader_addr(
        &self,
        service: &PlacementCenterService,
        interface: &PlacementCenterInterface,
        addr: &String,
    ) -> (r: Option<String>)
        ensures
            r.is_some() == self.leaders().contains_key(leader_key(*service, *interface, addr@)),
            r.is_some() ==> r.unwrap()@ == self.leaders()[leader_key(*service, *interface, addr@)],
    {
        let key: LeaderKey = ((*service, *interface), addr.clone());
        leader_table_get(&self.leader_addr, &key)
    }

    pub fn set_leader_addr(
        &mut self,
        service: &PlacementCenterService,
        interface: &PlacementCenterInterface,
        addr: &String,
        leader_addr: &String,
    )
        ensures
            final(self).leaders() == old(self).leaders().insert(
                leader_key(*service, *interface, addr@),
                leader_addr@,
            ),
    {
        let key: LeaderKey = ((*service, *interface), addr.clone());
        leader_table_insert(&mut self.leader_addr, key, leader_addr.clone());
        assert(self.leaders() =~= old(self).leaders().insert(
            leader_key(*service, *interface, addr@),
            leader_addr@,
        ));
    }
}

/// The address tried on attempt `times`: `addrs[times % len]`, or the leader
/// remembered for it when the request must reach the leader.
pub open spec fn chosen_addr(
    pool: &ClientPool,
    addrs: Seq<Seq<char>>,
    times: int,
    service: PlacementCenterService,
    interface: PlacementCenterInterface,
) -> Seq<char> {
    let cand = addrs[times % (addrs.len() as int)];
    if in_forward_set(interface) && pool.leaders().contains_key(leader_key(service, interface, cand)) {
        pool.leaders()[leader_key(service, interface, cand)]
    } else {
        cand
    }
}

pub fn calc_addr(
    client_poll: &ClientPool,
    addrs: &Vec<String>,
    times: usize,
    service: &PlacementCenterService,
    interface: &PlacementCenterInterface,
) -> (r: (String, usize))
    requires
        addrs@.len() > 0,
        times < usize::MAX,
    ensures
        r.0@ == chosen_addr(
            client_poll,
            addrs@.map_values(|a: String| a@),
            times as int,
            *service,
            *interface,
        ),
        r.1 == times + 1,
{
    let index = times % addrs.len();
    let addr = addrs[index].clone();
    if is_write_request(service, interface) {
        if let Some(leader_addr) = client_poll.get_leader_addr(service, interface, &addr) {
            return (leader_addr, times + 1);
        }
    }
    (addr, times + 1)
}

pub open spec fn forward_marker() -> Seq<char> {
    "has to forward request to"@
}

pub fn is_has_to_forward(error_info: &str) -> (r: bool)
    ensures
        r == contains_seq(error_info@, forward_marker()),
{
    text_contains(error_info, "has to forward request to")
}

pub open spec fn addr_tag() -> Seq<char> {
    "rpc_addr: "@
}

/// A match of `rpc_addr: ([^}]+)` starts at `i`.
pub open spec fn capture_starts_at(s: Seq<char>, i: int) -> bool {
    &&& occurs_at_tag(s, i)
    &&& i + addr_tag().len() < s.len()
    &&& s[i + addr_tag().len()] != '}'
}

pub open spec fn occurs_at_tag(s: Seq<char>, i: int) -> bool {
    crate::text::occurs_at(s, addr_tag(), i)
}

/// The first position at or after `j` that holds `}`, or the end.
pub open spec fn run_end(s: Seq<char>, j: int) -> int
    decreases s.len() - j,
{
    if j >= s.len() || s[j] == '}' {
        j
    } else {
        run_end(s, j + 1)
    }
}

/// Group 1 of the leftmost match of `rpc_addr: ([^}]+)` in `s`: the longest run
/// of characters other than `}` after the tag.
pub open spec fn rpc_addr_capture(s: Seq<char>) -> Option<Seq<char>> {
    if exists|i: int| capture_starts_at(s, i) {
        let i = choose|i: int|
            capture_starts_at(s, i) && forall|j: int| 0 <= j < i ==> !capture_starts_at(s, j);
        let b = i + addr_tag().len();
        Some(s.subrange(b, run_end(s, b)))
    } else {
        None
    }
}

/// Relies on regex's Regex::new and Regex::captures: group 1 of the leftmost-first
/// match of the pattern `rpc_addr: ([^}]+)`, with the greedy class running up to
/// the next `}` or the end.
#[verifier::external_body]
fn capture_rpc_addr(text: &str) -> (r: Option<String>)
    ensures
        r.is_some() == rpc_addr_capture(text@).is_some(),
        r.is_some() ==> r.unwrap()@ == rpc_addr_capture(text@).unwrap(),
{
    let re = regex::Regex::new(r"rpc_addr: ([^}]+)").unwrap();
    match re.captures(text) {
        Some(caps) => match caps.get(1) {
            Some(m) => Some(m.as_str().to_string()),
            None => None,
        },
        None => None,
    }
}

pub open spec fn kept_in_addr(c: char) -> bool {
    c != '\\' && c != '"' && c != ' '
}

/// `s` without backslashes, double quotes and spaces.
pub open spec fn strip_addr(s: Seq<char>) -> Seq<char>
    decreases s.len(),
{
    if s.len() == 0 {
        s
    } else if kept_in_addr(s.last()) {
        strip_addr(s.drop_last()).push(s.last())
    } else {
        strip_addr(s.drop_last())
    }
}

fn strip_addr_exec(s: &String) -> (r: String)
    ensures
        r@ == strip_addr(s@),
{
    let n = s.as_str().unicode_len();
    let mut out = String::new();
    let mut i: usize = 0;
    while i < n
        invariant
            n == s@.len(),
            i <= n,
            out@ == strip_addr(s@.subrange(0, i as int)),
        decreases n - i,
    {
        let c = s.as_str().get_char(i);
        assert(s@.subrange(0, i + 1).drop_last() =~= s@.subrange(0, i as int));
        if c != '\\' && c != '"' && c != ' ' {
            push_char(&mut out, c);
        }
        i = i + 1;
    }
    assert(s@.subrange(0, n as int) =~= s@);
    out
}

/// The leader address carried by a forwardable error's text.
pub open spec fn forward_addr(error_info: Seq<char>) -> Option<Seq<char>> {
    match rpc_addr_capture(error_info) {
        Some(c) => Some(strip_addr(c)),
        None => None,
    }
}

pub fn get_forward_addr(error_info: &str) -> (r: Option<String>)
    ensures
        r.is_some() == forward_addr(error_info@).is_some(),
        r.is_some() ==> r.unwrap()@ == forward_addr(error_info@).unwrap(),
{
    match capture_rpc_addr(error_info) {
        Some(c) => Some(strip_addr_exec(&c)),
        None => None,
    }
}

/// What a failed attempt leads to.
#[derive(Clone, Copy, Debug, PartialEq, Eq, Structural)]
pub struct RetryDecision {
    /// Sleep the backoff of this attempt before going on.
    pub sleep: bool,
    /// Stop and return the error.
    pub give_up: bool,
}

/// Handles the error of attempt `times` made against `addr`: a forwardable error
/// teaches the pool the leader's address and is retried at once; any other error
/// is retried after a backoff; past `retry_times` attempts the error is returned.
pub fn on_call_error(
    client_poll: &mut ClientPool,
    service: &PlacementCenterService,
    interface: &PlacementCenterInterface,
    addr: &String,
    error_info: &str,
    times: usize,
    retry_times: usize,
) -> (r: RetryDecision)
    ensures
        ({
            let fwd = contains_seq(error_info@, forward_marker());
            &&& r.sleep == !fwd
            &&& r.give_up == (times > retry_times)
            &&& final(client_poll).leaders() == if fwd && forward_addr(error_info@).is_some() {
                old(client_poll).leaders().insert(
                    leader_key(*service, *interface, addr@),
                    forward_addr(error_info@).unwrap(),
                )
            } else {
                old(client_poll).leaders()
            }
        }),
{
    let fwd = is_has_to_forward(error_info);
    if fwd {
        if let Some(leader_addr) = get_forward_addr(error_info) {
            client_poll.set_leader_addr(service, interface, addr, &leader_addr);
        }
    }
    RetryDecision { sleep: !fwd, give_up: times > retry_times }
}

/// The start of the error text of a node that is not the leader.
pub open spec fn forward_prefix() -> Seq<char> {
    "has to forward request to: Some(Node { "@
}

/// The error text a node that is not the leader answers a write with: it names
/// the leader's address after `rpc_addr: `.
pub open spec fn forward_text(leader_addr: Seq<char>) -> Seq<char> {
    forward_prefix() + addr_tag() + seq!['"'] + leader_addr + seq!['"', ' ', '}', ')']
}

pub fn forward_error_text(leader_addr: &String) -> (r: String)
    ensures
        r@ == forward_text(leader_addr@),
{
    let mut t = String::from_str("has to forward request to: Some(Node { ");
    t.append("rpc_addr: ");
    t.append("\"");
    t.append(leader_addr.as_str());
    t.append("\" })");
    proof {
        reveal_strlit("\"");
        reveal_strlit("\" })");
    }
    assert(t@ =~= forward_text(leader_addr@));
    t
}

/// Whether a write may be served here: on the leader, or for an interface that
/// needs no leader. Elsewhere the error names the leader's address.
pub fn check_leader(
    interface: &PlacementCenterInterface,
    is_leader: bool,
    leader_addr: &String,
) -> (r: Result<(), String>)
    ensures
        r.is_ok() == (is_leader || !in_forward_set(*interface)),
        r.is_err() ==> r->Err_0@ == forward_text(leader_addr@),
{
    if is_leader || !interface.should_forward_to_leader() {
        Ok(())
    } else {
        Err(forward_error_text(leader_addr))
    }
}

/// An address that survives the forwarding text unchanged: no `}`, backslash,
/// double quote or space.
pub open spec fn plain_addr(a: Seq<char>) -> bool {
    forall|i: int| 0 <= i < a.len() ==> kept_in_addr(#[trigger] a[i]) && a[i] != '}'
}

proof fn lemma_prefix_has_no_p()
    ensures
        forall|k: int| 0 <= k < forward_prefix().len() ==> forward_prefix()[k] != 'p',
        forward_prefix().len() == 39,
        forward_prefix().subrange(0, 25) == forward_marker(),
        addr_tag() == seq!['r', 'p', 'c', '_', 'a', 'd', 'd', 'r', ':', ' '],
{
    reveal_strlit("has to forward request to: Some(Node { ");
    reveal_strlit("has to forward request to");
    reveal_strlit("rpc_addr: ");
    assert(forward_prefix().subrange(0, 25) =~= forward_marker());
    assert(addr_tag() =~= seq!['r', 'p', 'c', '_', 'a', 'd', 'd', 'r', ':', ' ']);
}

proof fn lemma_run_end(s: Seq<char>, j: int, e: int)
    requires
        0 <= j <= e < s.len(),
        s[e] == '}',
        forall|k: int| j <= k < e ==> s[k] != '}',
    ensures
        run_end(s, j) == e,
    decreases e - j,
{
    if j < e {
        lemma_run_end(s, j + 1, e);
    }
}

proof fn lemma_strip_concat(a: Seq<char>, b: Seq<char>)
    ensures
        strip_addr(a + b) == strip_addr(a) + strip_addr(b),
    decreases b.len(),
{
    if b.len() == 0 {
        assert(a + b =~= a);
        assert(strip_addr(a) + strip_addr(b) =~= strip_addr(a));
    } else {
        lemma_strip_concat(a, b.drop_last());
        assert((a + b).drop_last() =~= a + b.drop_last());
        assert((a + b).last() == b.last());
        if kept_in_addr(b.last()) {
            assert(strip_addr(a) + strip_addr(b) =~= strip_addr(a) + strip_addr(b.drop_last()).push(b.last()));
        }
    }
}

proof fn lemma_strip_plain(a: Seq<char>)
    requires
        plain_addr(a),
    ensures
        strip_addr(a) == a,
    decreases a.len(),
{
    if a.len() > 0 {
        assert(plain_addr(a.drop_last()));
        lemma_strip_plain(a.drop_last());
        assert(kept_in_addr(a[a.len() - 1]));
        assert(a.drop_last().push(a.last()) =~= a);
    }
}

proof fn lemma_strip_quotes()
    ensures
        strip_addr(seq!['"']) == Seq::<char>::empty(),
        strip_addr(seq!['"', ' ']) == Seq::<char>::empty(),
{
    assert(seq!['"'].drop_last() =~= Seq::<char>::empty());
    assert(seq!['"', ' '].drop_last() =~= seq!['"']);
    assert(strip_addr(Seq::<char>::empty()) == Seq::<char>::empty());
    assert(strip_addr(seq!['"']) == strip_addr(Seq::<char>::empty()));
}

proof fn lemma_forward_text_chars(leader_addr: Seq<char>)
    ensures
        ({
            let s = forward_text(leader_addr);
            let n = leader_addr.len() as int;
            &&& s.len() == 54 + n
            &&& forall|k: int| 0 <= k < 39 ==> s[k] == #[trigger] forward_prefix()[k]
            &&& s.subrange(39, 49) == addr_tag()
            &&& s[39] == 'r'
            &&& s[49] == '"'
            &&& s.subrange(50, 50 + n) == leader_addr
            &&& s[50 + n] == '"'
            &&& s[51 + n] == ' '
            &&& s[52 + n] == '}'
            &&& s.subrange(0, 25) == forward_prefix().subrange(0, 25)
            &&& s.subrange(49, 52 + n) == seq!['"'] + leader_addr + seq!['"', ' ']
        }),
{
    lemma_prefix_has_no_p();
    let s = forward_text(leader_addr);
    let n = leader_addr.len() as int;
    assert(s.subrange(39, 49) =~= addr_tag());
    assert(s.subrange(50, 50 + n) =~= leader_addr);
    assert(s.subrange(0, 25) =~= forward_prefix().subrange(0, 25));
    assert(s.subrange(49, 52 + n) =~= seq!['"'] + leader_addr + seq!['"', ' ']);
}

proof fn lemma_forward_text_capture(leader_addr: Seq<char>)
    requires
        plain_addr(leader_addr),
    ensures
        rpc_addr_capture(forward_text(leader_addr)) == Some(
            seq!['"'] + leader_addr + seq!['"', ' '],
        ),
{
    lemma_prefix_has_no_p();
    lemma_forward_text_chars(leader_addr);
    let s = forward_text(leader_addr);
    let n = leader_addr.len() as int;
    let p = forward_prefix();
    assert(capture_starts_at(s, 39));
    assert forall|j: int| 0 <= j < 39 implies !capture_starts_at(s, j) by {
        if occurs_at_tag(s, j) {
            assert(s.subrange(j, j + 10)[1] == s[j + 1]);
            assert(addr_tag()[1] == 'p');
            if j + 1 < 39 {
                assert(p[j + 1] != 'p');
            }
        }
    }
    let i = choose|i: int|
        capture_starts_at(s, i) && forall|j: int| 0 <= j < i ==> !capture_starts_at(s, j);
    assert(i == 39) by {
        if i < 39 {
            assert(!capture_starts_at(s, i));
        } else if i > 39 {
            assert(!capture_starts_at(s, 39));
        }
    }
    assert forall|k: int| 49 <= k < 52 + n implies s[k] != '}' by {
        if 50 <= k < 50 + n {
            assert(s.subrange(50, 50 + n)[k - 50] == s[k]);
        }
    }
    lemma_run_end(s, 49, 52 + n);
}

/// The address a node that is not the leader puts in its error text is the
/// address a client reads back from it, and the text is recognised as one to
/// forward.
pub proof fn lemma_forward_text_round_trip(leader_addr: Seq<char>)
    requires
        plain_addr(leader_addr),
    ensures
        contains_seq(forward_text(leader_addr), forward_marker()),
        forward_addr(forward_text(leader_addr)) == Some(leader_addr),
{
    lemma_prefix_has_no_p();
    lemma_forward_text_chars(leader_addr);
    let s = forward_text(leader_addr);
    assert(crate::text::occurs_at(s, forward_marker(), 0));
    lemma_forward_text_capture(leader_addr);
    let c = seq!['"'] + leader_addr + seq!['"', ' '];
    lemma_strip_concat(seq!['"'] + leader_addr, seq!['"', ' ']);
    lemma_strip_concat(seq!['"'], leader_addr);
    lemma_strip_plain(leader_addr);
    lemma_strip_quotes();
    assert(strip_addr(c) =~= leader_addr);
}

/// Once a forwardable error from `addr` taught the pool the leader's address,
/// a later write to the same service and interface whose turn falls on `addr`
/// goes to the leader instead.
pub proof fn lemma_leader_redirect(
    before: ClientPool,
    after: ClientPool,
    addrs: Seq<Seq<char>>,
    times: int,
    service: PlacementCenterService,
    interface: PlacementCenterInterface,
    error_info: Seq<char>,
)
    requires
        addrs.len() > 0,
        times >= 0,
        in_forward_set(interface),
        contains_seq(error_info, forward_marker()),
        forward_addr(error_info).is_some(),
        after.leaders() == before.leaders().insert(
            leader_key(service, interface, addrs[times % addrs.len() as int]),
            forward_addr(error_info).unwrap(),
        ),
    ensures
        chosen_addr(&after, addrs, times, service, interface) == forward_addr(error_info).unwrap(),
{
}

} // verus!
