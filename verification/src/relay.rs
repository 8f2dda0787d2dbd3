//! The relay: the hub that agents connect to.
//!
//! It keeps the live registry from routing key to connection and the table of
//! requests that await an answer. Nothing here touches a socket: each entry
//! point takes what happened and the time, changes the two tables, and
//! returns what the caller has to carry out.

use crate::address::{endpoint_spec, get_endpoint, AddressError};
use crate::frame::DecodeError;
use crate::protocol::{
    decode, decode_spec, encode, expects_reply, is_reply, wire, Envelope, EnvelopeView, Payload,
};
use crate::table::{as_map, distinct_keys, has_key, Keyed, Selector, Table};
use crate::text::str_eq;
use vstd::prelude::*;
use vstd::string::*;

verus! {

/// Where a connection stands in its life.
#[derive(Debug, Clone, Copy, PartialEq, Eq, Structural)]
pub enum ConnState {
    Connecting,
    Authenticated,
    Active,
    Closing,
    Closed,
}

/// What can happen to a connection.
#[derive(Debug, Clone, Copy, PartialEq, Eq, Structural)]
pub enum ConnEvent {
    /// The handshake succeeded.
    HandshakeOk,
    /// A heartbeat or a message arrived.
    Traffic,
    /// A protocol error, an explicit close or a heartbeat timeout.
    Fault,
    /// The routing key was released.
    Released,
}

/// The state after an event. An open connection moves forward on the event
/// that its state waits for and starts closing on any other; a closing one
/// is closed once released; a closed one stays closed.
pub open spec fn next_state(s: ConnState, ev: ConnEvent) -> ConnState {
    match (s, ev) {
        (ConnState::Connecting, ConnEvent::HandshakeOk) => ConnState::Authenticated,
        (ConnState::Authenticated, ConnEvent::Traffic) => ConnState::Active,
        (ConnState::Active, ConnEvent::Traffic) => ConnState::Active,
        (ConnState::Closing, ConnEvent::Released) => ConnState::Closed,
        (ConnState::Closing, _) => ConnState::Closing,
        (ConnState::Closed, _) => ConnState::Closed,
        (_, _) => ConnState::Closing,
    }
}

/// The state after an event.
pub fn step(s: ConnState, ev: ConnEvent) -> (r: ConnState)
    ensures
        r == next_state(s, ev),
{
    match s {
        ConnState::Connecting => match ev {
            ConnEvent::HandshakeOk => ConnState::Authenticated,
            _ => ConnState::Closing,
        },
        ConnState::Authenticated => match ev {
            ConnEvent::Traffic => ConnState::Active,
            _ => ConnState::Closing,
        },
        ConnState::Active => match ev {
            ConnEvent::Traffic => ConnState::Active,
            _ => ConnState::Closing,
        },
        ConnState::Closing => match ev {
            ConnEvent::Released => ConnState::Closed,
            _ => ConnState::Closing,
        },
        ConnState::Closed => ConnState::Closed,
    }
}

/// A connection can carry traffic.
pub open spec fn is_open(s: ConnState) -> bool {
    s == ConnState::Authenticated || s == ConnState::Active
}

/// What the relay knows of a connection besides its routing key.
#[derive(Debug, Clone, Copy, PartialEq, Eq, Structural)]
pub struct ConnInfo {
    /// The caller's name for the transport session.
    pub conn_id: u64,
    pub state: ConnState,
    /// When the last heartbeat or message arrived.
    pub last_seen: u64,
}

/// A live transport session from one agent, under its routing key.
#[derive(Debug, PartialEq, Eq)]
pub struct AgentConnection {
    pub key: String,
    pub info: ConnInfo,
}

impl Keyed for AgentConnection {
    open spec fn key(&self) -> Seq<char> {
        self.key@
    }

    fn key_ref(&self) -> (k: &str) {
        self.key.as_str()
    }
}

/// What is kept of a request that awaits its answer.
pub struct PendingInfo {
    /// The routing key that the request went to.
    pub target: Seq<char>,
    /// When the wait ends.
    pub deadline: u64,
}

/// A request that awaits its answer, under its correlation identifier.
#[derive(Debug, PartialEq, Eq)]
pub struct PendingRequest {
    pub corr_id: String,
    pub target: String,
    pub deadline: u64,
}

impl PendingRequest {
    /// The request without its identifier.
    pub open spec fn info(self) -> PendingInfo {
        PendingInfo { target: self.target@, deadline: self.deadline }
    }
}

impl Keyed for PendingRequest {
    open spec fn key(&self) -> Seq<char> {
        self.corr_id@
    }

    fn key_ref(&self) -> (k: &str) {
        self.corr_id.as_str()
    }
}

/// The connections of a table, each without its key.
pub open spec fn conn_infos(m: Map<Seq<char>, AgentConnection>) -> Map<Seq<char>, ConnInfo> {
    m.map_values(|c: AgentConnection| c.info)
}

/// The requests of a table, each without its identifier.
pub open spec fn pending_infos(m: Map<Seq<char>, PendingRequest>) -> Map<Seq<char>, PendingInfo> {
    m.map_values(|p: PendingRequest| p.info())
}

/// The relay's timing rules.
#[derive(Debug, Clone, Copy, PartialEq, Eq, Structural)]
pub struct RelayConfig {
    /// The time between two heartbeats.
    pub heartbeat_interval: u64,
    /// How many heartbeats in a row may be missed.
    pub max_missed: u32,
    /// How long a request waits for its answer.
    pub request_timeout: u64,
}

/// The rules name an interval and a count that are not zero.
pub open spec fn config_ok(c: RelayConfig) -> bool {
    c.heartbeat_interval > 0 && c.max_missed > 0
}

/// The connection has been silent for `max_missed` intervals or longer.
pub open spec fn silent(last_seen: u64, now: u64, c: RelayConfig) -> bool {
    now - last_seen >= c.heartbeat_interval * c.max_missed
}

/// When a request sent at `now` stops waiting: `request_timeout` later, or
/// at the end of time.
pub open spec fn deadline_of(now: u64, c: RelayConfig) -> u64 {
    if now + c.request_timeout > u64::MAX {
        u64::MAX
    } else {
        (now + c.request_timeout) as u64
    }
}

/// A request to `key` can be handed to a connection now.
pub open spec fn reachable(
    conns: Map<Seq<char>, ConnInfo>,
    key: Seq<char>,
    now: u64,
    c: RelayConfig,
) -> bool {
    conns.contains_key(key) && !silent(conns[key].last_seen, now, c)
}

/// The connection that a handshake registers.
pub open spec fn fresh_conn(conn_id: u64, now: u64) -> ConnInfo {
    ConnInfo { conn_id, state: ConnState::Authenticated, last_seen: now }
}

/// The connection after traffic at `now`.
pub open spec fn touched(c: ConnInfo, now: u64) -> ConnInfo {
    ConnInfo {
        conn_id: c.conn_id,
        state: next_state(c.state, ConnEvent::Traffic),
        last_seen: now,
    }
}

/// The session that a registration under `key` pushes out, if there is one.
pub open spec fn evicted_by(conns: Map<Seq<char>, ConnInfo>, key: Seq<char>) -> Option<u64> {
    if conns.contains_key(key) {
        Some(conns[key].conn_id)
    } else {
        None
    }
}

/// The requests that still wait after `now`.
pub open spec fn after_expiry(pending: Map<Seq<char>, PendingInfo>, now: u64) -> Map<
    Seq<char>,
    PendingInfo,
> {
    pending.restrict(Set::new(|id: Seq<char>| pending[id].deadline > now))
}

/// The requests whose wait has ended by `now`.
pub open spec fn expired(pending: Map<Seq<char>, PendingInfo>, now: u64) -> Map<
    Seq<char>,
    PendingInfo,
> {
    pending.restrict(Set::new(|id: Seq<char>| pending[id].deadline <= now))
}

/// The requests that went to `key`.
pub open spec fn addressed(pending: Map<Seq<char>, PendingInfo>, key: Seq<char>) -> Map<
    Seq<char>,
    PendingInfo,
> {
    pending.restrict(Set::new(|id: Seq<char>| pending[id].target == key))
}

/// The requests that went elsewhere than to `key`.
pub open spec fn after_drop(pending: Map<Seq<char>, PendingInfo>, key: Seq<char>) -> Map<
    Seq<char>,
    PendingInfo,
> {
    pending.restrict(Set::new(|id: Seq<char>| pending[id].target != key))
}

/// The envelope from `sender` is the answer that a pending request waits for.
pub open spec fn awaited(
    pending: Map<Seq<char>, PendingInfo>,
    e: EnvelopeView,
    sender: Seq<char>,
) -> bool {
    is_reply(e) && pending.contains_key(e.corr_id) && pending[e.corr_id].target == sender
}

/// Why an envelope was not sent.
#[derive(Debug, Clone, Copy, PartialEq, Eq, Structural)]
pub enum SendError {
    /// No live connection for the routing key.
    UnreachableTarget,
    /// A request with this correlation identifier still waits.
    DuplicateCorrelation,
}

/// What the caller has to write, and to which transport session.
#[derive(Debug, PartialEq, Eq)]
pub struct Delivery {
    pub conn_id: u64,
    pub bytes: Vec<u8>,
}

/// What sending the envelope `e` to `key` at `now` comes to, and what it
/// does to the pending requests.
///
/// Without a live connection for the key the target is unreachable. With
/// one, an envelope that asks for an answer under an identifier that still
/// waits is refused; any other envelope is handed over as its bytes, and if
/// it asks for an answer the request waits from now on.
pub open spec fn send_outcome(
    conns: Map<Seq<char>, ConnInfo>,
    pending0: Map<Seq<char>, PendingInfo>,
    pending1: Map<Seq<char>, PendingInfo>,
    c: RelayConfig,
    key: Seq<char>,
    e: EnvelopeView,
    now: u64,
    r: Result<Delivery, SendError>,
) -> bool {
    match r {
        Err(SendError::UnreachableTarget) => !reachable(conns, key, now, c) && pending1
            == pending0,
        Err(SendError::DuplicateCorrelation) => reachable(conns, key, now, c) && expects_reply(e)
            && pending0.contains_key(e.corr_id) && pending1 == pending0,
        Ok(d) => reachable(conns, key, now, c) && d.conn_id == conns[key].conn_id && d.bytes@
            == wire(e) && (expects_reply(e) ==> !pending0.contains_key(e.corr_id) && pending1
            == pending0.insert(
            e.corr_id,
            PendingInfo { target: key, deadline: deadline_of(now, c) },
        )) && (!expects_reply(e) ==> pending1 == pending0),
    }
}

/// What a handshake gave.
#[derive(Debug, PartialEq, Eq)]
pub struct Registered {
    /// The routing key that the connection now stands under.
    pub key: String,
    /// The transport session that stood there before: it is sent a close
    /// notice and dropped.
    pub evicted: Option<u64>,
}

/// Picks the requests whose wait has ended by `now`.
pub struct DueBy {
    pub now: u64,
}

impl Selector<PendingRequest> for DueBy {
    open spec fn picks(&self, e: &PendingRequest) -> bool {
        e.deadline <= self.now
    }

    fn test(&self, e: &PendingRequest) -> (b: bool) {
        e.deadline <= self.now
    }
}

/// Picks the requests that went to `key`.
pub struct AddressedTo {
    pub key: String,
}

impl Selector<PendingRequest> for AddressedTo {
    open spec fn picks(&self, e: &PendingRequest) -> bool {
        e.target@ == self.key@
    }

    fn test(&self, e: &PendingRequest) -> (b: bool) {
        str_eq(e.target.as_str(), self.key.as_str())
    }
}

/// Picks the connections that are silent at `now`.
pub struct SilentAt {
    pub now: u64,
    pub config: RelayConfig,
}

impl Selector<AgentConnection> for SilentAt {
    open spec fn picks(&self, e: &AgentConnection) -> bool {
        silent(e.info.last_seen, self.now, self.config)
    }

    fn test(&self, e: &AgentConnection) -> (b: bool) {
        is_silent(e.info.last_seen, self.now, &self.config)
    }
}

/// Picks the requests that went to one of the connections in `gone`.
pub struct TargetAmong {
    pub gone: Vec<AgentConnection>,
}

impl Selector<PendingRequest> for TargetAmong {
    open spec fn picks(&self, e: &PendingRequest) -> bool {
        has_key(self.gone@, e.target@)
    }

    fn test(&self, e: &PendingRequest) -> (b: bool) {
        let mut i: usize = 0;
        while i < self.gone.len()
            invariant
                i <= self.gone@.len(),
                forall|j: int| 0 <= j < i ==> #[trigger] self.gone@[j].key() != e.target@,
            decreases self.gone@.len() - i,
        {
            if str_eq(self.gone[i].key.as_str(), e.target.as_str()) {
                assert(self.gone@[i as int].key() == e.target@);
                return true;
            }
            i = i + 1;
        }
        false
    }
}

/// The connections that are silent at `now`.
pub open spec fn silent_conns(conns: Map<Seq<char>, ConnInfo>, now: u64, c: RelayConfig) -> Map<
    Seq<char>,
    ConnInfo,
> {
    conns.restrict(Set::new(|k: Seq<char>| silent(conns[k].last_seen, now, c)))
}

/// The connections that were heard of lately enough at `now`.
pub open spec fn heard_conns(conns: Map<Seq<char>, ConnInfo>, now: u64, c: RelayConfig) -> Map<
    Seq<char>,
    ConnInfo,
> {
    conns.restrict(Set::new(|k: Seq<char>| !silent(conns[k].last_seen, now, c)))
}

/// The requests that went to one of the routing keys in `gone`.
pub open spec fn orphaned(pending: Map<Seq<char>, PendingInfo>, gone: Set<Seq<char>>) -> Map<
    Seq<char>,
    PendingInfo,
> {
    pending.restrict(Set::new(|id: Seq<char>| gone.contains(pending[id].target)))
}

/// The requests that went to none of the routing keys in `gone`.
pub open spec fn spared(pending: Map<Seq<char>, PendingInfo>, gone: Set<Seq<char>>) -> Map<
    Seq<char>,
    PendingInfo,
> {
    pending.restrict(Set::new(|id: Seq<char>| !gone.contains(pending[id].target)))
}

/// The requests in `batch` are exactly those of `part`, each once.
pub open spec fn lists(batch: Seq<PendingRequest>, part: Map<Seq<char>, PendingInfo>) -> bool {
    distinct_keys(batch) && pending_infos(as_map(batch)) == part
}

/// The connections in `batch` are exactly those of `part`, each once.
pub open spec fn lists_conns(batch: Seq<AgentConnection>, part: Map<Seq<char>, ConnInfo>) -> bool {
    distinct_keys(batch) && conn_infos(as_map(batch)) == part
}

/// What the end of a connection left behind.
#[derive(Debug, PartialEq, Eq)]
pub struct Dropped {
    /// The transport session that was registered, if one was.
    pub conn_id: Option<u64>,
    /// The requests that went to it and now fail.
    pub failed: Vec<PendingRequest>,
}

/// What the passing of time left behind.
#[derive(Debug, PartialEq, Eq)]
pub struct Tick {
    /// The requests whose wait ended: they fail with a timeout.
    pub timed_out: Vec<PendingRequest>,
    /// The connections that missed their heartbeats: they are closed.
    pub closed: Vec<AgentConnection>,
    /// The requests that went to those connections: they fail as unreachable.
    pub failed: Vec<PendingRequest>,
}

/// What became of an inbound message.
#[derive(Debug, PartialEq, Eq)]
pub enum Inbound {
    /// No connection stands under the sender's key: the message is dropped.
    UnknownSender,
    /// The bytes are no envelope: the sender's connection is closed.
    Rejected { error: DecodeError, dropped: Dropped },
    /// A sign of life.
    Heartbeat,
    /// The answer to a pending request, which is thereby resolved.
    Resolved { envelope: Envelope },
    /// An answer that nothing waits for: a duplicate, or late, or not from
    /// the agent that was asked. It is dropped.
    Discarded { envelope: Envelope },
    /// Other traffic, for the layers above.
    Passed { envelope: Envelope },
}

/// The tables after the end of the connection under `key`, and what it left.
pub open spec fn is_drop_of(
    conns0: Map<Seq<char>, ConnInfo>,
    pending0: Map<Seq<char>, PendingInfo>,
    conns1: Map<Seq<char>, ConnInfo>,
    pending1: Map<Seq<char>, PendingInfo>,
    key: Seq<char>,
    d: Dropped,
) -> bool {
    &&& conns1 == conns0.remove(key)
    &&& d.conn_id == evicted_by(conns0, key)
    &&& pending1 == after_drop(pending0, key)
    &&& lists(d.failed@, addressed(pending0, key))
}

/// At most one connection stands under a routing key: a second
/// registration under the key takes the place of the first in the same
/// step, hands the first session back as pushed out, and touches no other
/// key.
pub proof fn lemma_register_supersedes(
    conns: Map<Seq<char>, ConnInfo>,
    key: Seq<char>,
    first: u64,
    t1: u64,
    second: u64,
    t2: u64,
)
    ensures
        ({
            let one = conns.insert(key, fresh_conn(first, t1));
            let two = one.insert(key, fresh_conn(second, t2));
            &&& evicted_by(one, key) == Some(first)
            &&& two[key] == fresh_conn(second, t2)
            &&& two.dom() == one.dom()
            &&& two == conns.insert(key, fresh_conn(second, t2))
            &&& forall|k: Seq<char>| k != key && conns.contains_key(k) ==> #[trigger] two[k] == conns[k]
        }),
{
    let one = conns.insert(key, fresh_conn(first, t1));
    let two = one.insert(key, fresh_conn(second, t2));
    assert(two.dom() =~= one.dom());
    assert(two =~= conns.insert(key, fresh_conn(second, t2)));
}

/// A request that an answer resolved is resolved for good: it has left the
/// table, so no second answer, no timeout and no disconnect finds it.
pub proof fn lemma_reply_resolves_once(
    pending: Map<Seq<char>, PendingInfo>,
    e: EnvelopeView,
    sender: Seq<char>,
    now: u64,
    key: Seq<char>,
)
    requires
        awaited(pending, e, sender),
    ensures
        ({
            let rest = pending.remove(e.corr_id);
            &&& !rest.contains_key(e.corr_id)
            &&& !awaited(rest, e, sender)
            &&& !expired(rest, now).contains_key(e.corr_id)
            &&& !addressed(rest, key).contains_key(e.corr_id)
        }),
{
}

/// A request that timed out is resolved for good: it has left the table, so
/// no late answer and no second timeout finds it.
pub proof fn lemma_timeout_resolves_once(
    pending: Map<Seq<char>, PendingInfo>,
    e: EnvelopeView,
    sender: Seq<char>,
    now: u64,
    later: u64,
)
    requires
        expired(pending, now).contains_key(e.corr_id),
    ensures
        ({
            let rest = after_expiry(pending, now);
            &&& !rest.contains_key(e.corr_id)
            &&& !awaited(rest, e, sender)
            &&& !expired(rest, later).contains_key(e.corr_id)
        }),
{
}

/// The passing of time splits the pending requests in two: each either
/// times out or goes on waiting, never both, and none is lost.
pub proof fn lemma_expiry_partitions(pending: Map<Seq<char>, PendingInfo>, now: u64)
    ensures
        forall|id: Seq<char>| #[trigger]
            pending.contains_key(id) <==> (expired(pending, now).contains_key(id) || after_expiry(
                pending,
                now,
            ).contains_key(id)),
        forall|id: Seq<char>|
            !(#[trigger] expired(pending, now).contains_key(id) && after_expiry(
                pending,
                now,
            ).contains_key(id)),
        forall|id: Seq<char>| #[trigger]
            after_expiry(pending, now).contains_key(id) ==> after_expiry(pending, now)[id]
                == pending[id] && pending[id].deadline > now,
{
}

/// No request waits forever: once its deadline has come, the next passing
/// of time resolves it.
pub proof fn lemma_resolution_is_owed(
    pending: Map<Seq<char>, PendingInfo>,
    id: Seq<char>,
    now: u64,
)
    requires
        pending.contains_key(id),
        pending[id].deadline <= now,
    ensures
        expired(pending, now).contains_key(id),
        expired(pending, now)[id] == pending[id],
        !after_expiry(pending, now).contains_key(id),
{
}

/// The end of a connection fails the requests that went to it and no
/// others: a request that went elsewhere goes on waiting, unchanged.
pub proof fn lemma_drop_spares_others(
    pending: Map<Seq<char>, PendingInfo>,
    key: Seq<char>,
    id: Seq<char>,
)
    requires
        pending.contains_key(id),
    ensures
        pending[id].target == key ==> addressed(pending, key).contains_key(id) && !after_drop(
            pending,
            key,
        ).contains_key(id),
        pending[id].target != key ==> !addressed(pending, key).contains_key(id) && after_drop(
            pending,
            key,
        ).contains_key(id) && after_drop(pending, key)[id] == pending[id],
{
}

/// What the bytes from the connection under `key` come to at `now`, and
/// what they do to the two tables.
pub open spec fn received(
    conns0: Map<Seq<char>, ConnInfo>,
    pending0: Map<Seq<char>, PendingInfo>,
    conns1: Map<Seq<char>, ConnInfo>,
    pending1: Map<Seq<char>, PendingInfo>,
    key: Seq<char>,
    bytes: Seq<u8>,
    now: u64,
    r: Inbound,
) -> bool {
    match r {
        Inbound::UnknownSender => !conns0.contains_key(key) && conns1 == conns0 && pending1
            == pending0,
        Inbound::Rejected { error, dropped } => conns0.contains_key(key) && decode_spec(bytes)
            == Err::<EnvelopeView, DecodeError>(error) && is_drop_of(
            conns0,
            pending0,
            conns1,
            pending1,
            key,
            dropped,
        ),
        Inbound::Heartbeat => conns0.contains_key(key) && decode_spec(bytes) is Ok && decode_spec(
            bytes,
        )->Ok_0.payload is Heartbeat && conns1 == conns0.insert(key, touched(conns0[key], now))
            && pending1 == pending0,
        Inbound::Resolved { envelope } => conns0.contains_key(key) && decode_spec(bytes) == Ok::<
            EnvelopeView,
            DecodeError,
        >(envelope@) && awaited(pending0, envelope@, key) && conns1 == conns0.insert(
            key,
            touched(conns0[key], now),
        ) && pending1 == pending0.remove(envelope@.corr_id),
        Inbound::Discarded { envelope } => conns0.contains_key(key) && decode_spec(bytes) == Ok::<
            EnvelopeView,
            DecodeError,
        >(envelope@) && is_reply(envelope@) && !awaited(pending0, envelope@, key) && conns1
            == conns0.insert(key, touched(conns0[key], now)) && pending1 == pending0,
        Inbound::Passed { envelope } => conns0.contains_key(key) && decode_spec(bytes) == Ok::<
            EnvelopeView,
            DecodeError,
        >(envelope@) && !is_reply(envelope@) && !(envelope@.payload is Heartbeat) && conns1
            == conns0.insert(key, touched(conns0[key], now)) && pending1 == pending0,
    }
}

/// The connection hub.
pub struct Relay {
    config: RelayConfig,
    connections: Table<AgentConnection>,
    pending: Table<PendingRequest>,
}

/// Whether a connection last seen at `last_seen` counts as silent at `now`.
pub fn is_silent(last_seen: u64, now: u64, c: &RelayConfig) -> (b: bool)
    ensures
        b == silent(last_seen, now, *c),
{
    if now < last_seen {
        assert(c.heartbeat_interval * c.max_missed >= 0) by (nonlinear_arith)
            requires
                c.heartbeat_interval >= 0,
                c.max_missed >= 0,
        ;
        if c.heartbeat_interval == 0 || c.max_missed == 0 {
            assert(c.heartbeat_interval * c.max_missed == 0) by (nonlinear_arith)
                requires
                    c.heartbeat_interval == 0 || c.max_missed == 0,
            ;
        } else {
            assert(c.heartbeat_interval * c.max_missed > 0) by (nonlinear_arith)
                requires
                    c.heartbeat_interval > 0,
                    c.max_missed > 0,
            ;
        }
        return false;
    }
    let gap: u128 = (now - last_seen) as u128;
    assert(c.heartbeat_interval * c.max_missed <= 0xffff_ffff_ffff_ffff * 0xffff_ffff)
        by (nonlinear_arith)
        requires
            0 <= c.heartbeat_interval <= 0xffff_ffff_ffff_ffff,
            0 <= c.max_missed <= 0xffff_ffff,
    ;
    let limit: u128 = (c.heartbeat_interval as u128) * (c.max_missed as u128);
    gap >= limit
}

/// When a request sent at `now` stops waiting.
pub fn deadline_at(now: u64, c: &RelayConfig) -> (d: u64)
    ensures
        d == deadline_of(now, *c),
{
    match now.checked_add(c.request_timeout) {
        Some(d) => d,
        None => u64::MAX,
    }
}

impl Relay {
    /// The timing rules.
    pub closed spec fn config(&self) -> RelayConfig {
        self.config
    }

    /// The registry: routing key to connection.
    pub closed spec fn connections(&self) -> Map<Seq<char>, ConnInfo> {
        conn_infos(self.connections@)
    }

    /// The requests that await an answer: correlation identifier to request.
    pub closed spec fn pending(&self) -> Map<Seq<char>, PendingInfo> {
        pending_infos(self.pending@)
    }

    /// The tables are sound, the rules usable, and every registered
    /// connection is open.
    pub closed spec fn wf(&self) -> bool {
        &&& self.connections.wf()
        &&& self.pending.wf()
        &&& config_ok(self.config)
        &&& forall|k: Seq<char>| #[trigger]
            self.connections@.contains_key(k) ==> is_open(self.connections@[k].info.state)
    }

    /// Every registered connection is open.
    pub proof fn lemma_registered_open(&self, key: Seq<char>)
        requires
            self.wf(),
            self.connections().contains_key(key),
        ensures
            is_open(self.connections()[key].state),
            config_ok(self.config()),
    {
        assert(self.connections@.contains_key(key));
    }

    /// A relay without connections or requests; nothing for rules that name
    /// a zero interval or a zero count.
    pub fn new(config: RelayConfig) -> (r: Option<Relay>)
        ensures
            r is Some <==> config_ok(config),
            r matches Some(relay) ==> relay.wf() && relay.config() == config
                && relay.connections() == Map::<Seq<char>, ConnInfo>::empty() && relay.pending()
                == Map::<Seq<char>, PendingInfo>::empty(),
    {
        if config.heartbeat_interval == 0 || config.max_missed == 0 {
            return None;
        }
        let relay = Relay { config, connections: Table::new(), pending: Table::new() };
        assert(relay.connections() =~= Map::<Seq<char>, ConnInfo>::empty());
        assert(relay.pending() =~= Map::<Seq<char>, PendingInfo>::empty());
        Some(relay)
    }

    /// Registers the transport session `conn_id` under `key` after its
    /// handshake. A session that stood there is pushed out and handed back.
    pub fn register(&mut self, key: &str, conn_id: u64, now: u64) -> (evicted: Option<u64>)
        requires
            old(self).wf(),
        ensures
            final(self).wf(),
            final(self).config() == old(self).config(),
            final(self).pending() == old(self).pending(),
            final(self).connections() == old(self).connections().insert(
                key@,
                fresh_conn(conn_id, now),
            ),
            evicted == evicted_by(old(self).connections(), key@),
    {
        let conn = AgentConnection {
            key: String::from_str(key),
            info: ConnInfo { conn_id, state: ConnState::Authenticated, last_seen: now },
        };
        let prev = self.connections.put(conn);
        proof {
            assert(self.connections() =~= old(self).connections().insert(
                key@,
                fresh_conn(conn_id, now),
            )) by {
                assert(self.connections@ == old(self).connections@.insert(key@, conn));
            }
            assert forall|k: Seq<char>| #[trigger]
                self.connections@.contains_key(k) implies is_open(
                self.connections@[k].info.state,
            ) by {
                if k != key@ {
                    assert(old(self).connections@.contains_key(k));
                }
            }
        }
        match prev {
            Some(p) => Some(p.info.conn_id),
            None => None,
        }
    }

    /// The handshake of an agent that names its namespace and IP address:
    /// its session is registered under the routing key of the pair. An empty
    /// IP address is refused and changes nothing.
    pub fn handshake(&mut self, namespace: &str, ip: &str, conn_id: u64, now: u64) -> (r: Result<
        Registered,
        AddressError,
    >)
        requires
            old(self).wf(),
        ensures
            final(self).wf(),
            final(self).config() == old(self).config(),
            final(self).pending() == old(self).pending(),
            ip@.len() == 0 ==> r is Err && r->Err_0 == AddressError::EmptyIp && final(self).connections() == old(self).connections(),
            ip@.len() != 0 ==> r is Ok && r->Ok_0.key@ == endpoint_spec(namespace@, ip@)
                && r->Ok_0.evicted == evicted_by(
                old(self).connections(),
                endpoint_spec(namespace@, ip@),
            ) && final(self).connections() == old(self).connections().insert(
                endpoint_spec(namespace@, ip@),
                fresh_conn(conn_id, now),
            ),
    {
        match get_endpoint(namespace, ip) {
            Err(e) => Err(e),
            Ok(key) => {
                let evicted = self.register(key.as_str(), conn_id, now);
                Ok(Registered { key, evicted })
            },
        }
    }

    /// Hands an envelope to the live connection of `key`, if there is one,
    /// and notes the request when the envelope asks for an answer. Never
    /// waits: without a live connection the answer is `UnreachableTarget`.
    pub fn send(&mut self, key: &str, envelope: &Envelope, now: u64) -> (r: Result<
        Delivery,
        SendError,
    >)
        requires
            old(self).wf(),
        ensures
            final(self).wf(),
            final(self).config() == old(self).config(),
            final(self).connections() == old(self).connections(),
            send_outcome(
                old(self).connections(),
                old(self).pending(),
                final(self).pending(),
                old(self).config(),
                key@,
                envelope@,
                now,
                r,
            ),
    {
        let conn_id = match self.connections.get(key) {
            Some(c) => {
                if is_silent(c.info.last_seen, now, &self.config) {
                    return Err(SendError::UnreachableTarget);
                }
                c.info.conn_id
            },
            None => {
                return Err(SendError::UnreachableTarget);
            },
        };
        if envelope.expects_reply() {
            if self.pending.position(envelope.corr_id.as_str()).is_some() {
                return Err(SendError::DuplicateCorrelation);
            }
            let p = PendingRequest {
                corr_id: envelope.corr_id.clone(),
                target: String::from_str(key),
                deadline: deadline_at(now, &self.config),
            };
            self.pending.add(p);
            assert(self.pending() =~= old(self).pending().insert(
                envelope@.corr_id,
                PendingInfo { target: key@, deadline: deadline_of(now, old(self).config()) },
            )) by {
                assert(self.pending@ == old(self).pending@.insert(envelope@.corr_id, p));
            }
        }
        Ok(Delivery { conn_id, bytes: encode(envelope) })
    }

    /// Ends the connection under `key`, if there is one: the key is released
    /// and every request that went to it fails at once. Requests that went
    /// elsewhere are not touched.
    pub fn disconnect(&mut self, key: &str) -> (d: Dropped)
        requires
            old(self).wf(),
        ensures
            final(self).wf(),
            final(self).config() == old(self).config(),
            is_drop_of(
                old(self).connections(),
                old(self).pending(),
                final(self).connections(),
                final(self).pending(),
                key@,
                d,
            ),
    {
        let prev = self.connections.take(key);
        let sel = AddressedTo { key: String::from_str(key) };
        let failed = self.pending.drain(&sel);
        proof {
            assert(self.connections() =~= old(self).connections().remove(key@));
            assert(self.pending() =~= after_drop(old(self).pending(), key@));
            assert(pending_infos(as_map(failed@)) =~= addressed(old(self).pending(), key@));
            assert forall|k: Seq<char>| #[trigger]
                self.connections@.contains_key(k) implies is_open(
                self.connections@[k].info.state,
            ) by {
                assert(old(self).connections@.contains_key(k));
            }
        }
        let conn_id = match prev {
            Some(c) => Some(c.info.conn_id),
            None => None,
        };
        Dropped { conn_id, failed }
    }

    /// Ends the wait of every request whose deadline has come: they are
    /// taken out and handed back, to fail with a timeout.
    pub fn expire(&mut self, now: u64) -> (timed_out: Vec<PendingRequest>)
        requires
            old(self).wf(),
        ensures
            final(self).wf(),
            final(self).config() == old(self).config(),
            final(self).connections() == old(self).connections(),
            final(self).pending() == after_expiry(old(self).pending(), now),
            lists(timed_out@, expired(old(self).pending(), now)),
    {
        let sel = DueBy { now };
        let timed_out = self.pending.drain(&sel);
        proof {
            assert(self.pending() =~= after_expiry(old(self).pending(), now));
            assert(pending_infos(as_map(timed_out@)) =~= expired(old(self).pending(), now));
        }
        timed_out
    }

    /// Closes every connection that has missed its heartbeats: their keys
    /// are released and the requests that went to them fail at once.
    pub fn reap(&mut self, now: u64) -> (r: (Vec<AgentConnection>, Vec<PendingRequest>))
        requires
            old(self).wf(),
        ensures
            final(self).wf(),
            final(self).config() == old(self).config(),
            final(self).connections() == heard_conns(
                old(self).connections(),
                now,
                old(self).config(),
            ),
            lists_conns(r.0@, silent_conns(old(self).connections(), now, old(self).config())),
            final(self).pending() == spared(
                old(self).pending(),
                silent_conns(old(self).connections(), now, old(self).config()).dom(),
            ),
            lists(
                r.1@,
                orphaned(
                    old(self).pending(),
                    silent_conns(old(self).connections(), now, old(self).config()).dom(),
                ),
            ),
    {
        let who = SilentAt { now, config: self.config };
        let closed = self.connections.drain(&who);
        let ghost gone = silent_conns(old(self).connections(), now, old(self).config());
        proof {
            assert(self.connections() =~= heard_conns(
                old(self).connections(),
                now,
                old(self).config(),
            ));
            assert(conn_infos(as_map(closed@)) =~= gone);
            assert forall|k: Seq<char>| #[trigger]
                self.connections@.contains_key(k) implies is_open(
                self.connections@[k].info.state,
            ) by {
                assert(old(self).connections@.contains_key(k));
            }
            assert forall|k: Seq<char>| has_key(closed@, k) <==> gone.dom().contains(k) by {
                assert(as_map(closed@).contains_key(k) <==> has_key(closed@, k));
                assert(conn_infos(as_map(closed@)).contains_key(k) <==> as_map(
                    closed@,
                ).contains_key(k));
            }
        }
        let sel = TargetAmong { gone: closed };
        let failed = self.pending.drain(&sel);
        proof {
            assert(self.pending() =~= spared(old(self).pending(), gone.dom()));
            assert(pending_infos(as_map(failed@)) =~= orphaned(old(self).pending(), gone.dom()));
        }
        (sel.gone, failed)
    }

    /// Lets time pass: first every request whose deadline has come times
    /// out, then every connection that has missed its heartbeats is closed
    /// and the requests that still went to it fail.
    pub fn tick(&mut self, now: u64) -> (t: Tick)
        requires
            old(self).wf(),
        ensures
            final(self).wf(),
            final(self).config() == old(self).config(),
            lists(t.timed_out@, expired(old(self).pending(), now)),
            final(self).connections() == heard_conns(
                old(self).connections(),
                now,
                old(self).config(),
            ),
            lists_conns(
                t.closed@,
                silent_conns(old(self).connections(), now, old(self).config()),
            ),
            final(self).pending() == spared(
                after_expiry(old(self).pending(), now),
                silent_conns(old(self).connections(), now, old(self).config()).dom(),
            ),
            lists(
                t.failed@,
                orphaned(
                    after_expiry(old(self).pending(), now),
                    silent_conns(old(self).connections(), now, old(self).config()).dom(),
                ),
            ),
    {
        let timed_out = self.expire(now);
        let (closed, failed) = self.reap(now);
        Tick { timed_out, closed, failed }
    }

    /// Takes in the bytes that arrived from the connection under `key`.
    ///
    /// Bytes from a key that is not registered are dropped. Bytes that are
    /// no envelope end the sender's connection. Anything else counts as
    /// traffic: the connection is active and was last seen `now`. An answer
    /// from the agent that a pending request went to resolves that request,
    /// which leaves the table; any other answer is dropped.
    pub fn on_message(&mut self, key: &str, bytes: &[u8], now: u64) -> (r: Inbound)
        requires
            old(self).wf(),
        ensures
            final(self).wf(),
            final(self).config() == old(self).config(),
            received(
                old(self).connections(),
                old(self).pending(),
                final(self).connections(),
                final(self).pending(),
                key@,
                bytes@,
                now,
                r,
            ),
    {
        let i = match self.connections.position(key) {
            Some(i) => i,
            None => {
                return Inbound::UnknownSender;
            },
        };
        let envelope = match decode(bytes) {
            Ok(e) => e,
            Err(error) => {
                let dropped = self.disconnect(key);
                return Inbound::Rejected { error, dropped };
            },
        };
        let c = self.connections.at(i);
        let updated = AgentConnection {
            key: c.key.clone(),
            info: ConnInfo {
                conn_id: c.info.conn_id,
                state: step(c.info.state, ConnEvent::Traffic),
                last_seen: now,
            },
        };
        let _ = self.connections.replace_at(i, updated);
        proof {
            assert(old(self).connections@.contains_key(key@));
            assert(self.connections@ == old(self).connections@.insert(key@, updated));
            assert(self.connections() =~= old(self).connections().insert(
                key@,
                touched(old(self).connections()[key@], now),
            ));
            assert forall|k: Seq<char>| #[trigger]
                self.connections@.contains_key(k) implies is_open(
                self.connections@[k].info.state,
            ) by {
                if k != key@ {
                    assert(old(self).connections@.contains_key(k));
                }
            }
        }
        if let Payload::Heartbeat = &envelope.payload {
            return Inbound::Heartbeat;
        }
        if envelope.is_reply() {
            match self.pending.position(envelope.corr_id.as_str()) {
                Some(j) => {
                    if str_eq(self.pending.at(j).target.as_str(), key) {
                        let _ = self.pending.take_at(j);
                        assert(self.pending() =~= old(self).pending().remove(
                            envelope@.corr_id,
                        ));
                        Inbound::Resolved { envelope }
                    } else {
                        Inbound::Discarded { envelope }
                    }
                },
                None => Inbound::Discarded { envelope },
            }
        } else {
            Inbound::Passed { envelope }
        }
    }

    /// Whether a request to `key` can be handed to a connection now. The
    /// registry is asked each time: nothing is remembered from an earlier
    /// answer.
    pub fn is_reachable(&self, key: &str, now: u64) -> (b: bool)
        requires
            self.wf(),
        ensures
            b == reachable(self.connections(), key@, now, self.config()),
    {
        match self.connections.get(key) {
            Some(c) => !is_silent(c.info.last_seen, now, &self.config),
            None => false,
        }
    }

    /// What is known of the connection under `key`, if there is one.
    pub fn connection(&self, key: &str) -> (r: Option<ConnInfo>)
        requires
            self.wf(),
        ensures
            r == (if self.connections().contains_key(key@) {
                Some(self.connections()[key@])
            } else {
                None
            }),
    {
        match self.connections.get(key) {
            Some(c) => Some(c.info),
            None => None,
        }
    }

    /// The target and the deadline of the request that waits under
    /// `corr_id`, if there is one.
    pub fn waiting(&self, corr_id: &str) -> (r: Option<(String, u64)>)
        requires
            self.wf(),
        ensures
            match r {
                Some(p) => self.pending().contains_key(corr_id@) && p.0@
                    == self.pending()[corr_id@].target && p.1
                    == self.pending()[corr_id@].deadline,
                None => !self.pending().contains_key(corr_id@),
            },
    {
        match self.pending.get(corr_id) {
            Some(p) => Some((p.target.clone(), p.deadline)),
            None => None,
        }
    }

    /// The number of requests that wait.
    pub fn pending_len(&self) -> (n: usize)
        requires
            self.wf(),
        ensures
            self.pending().dom().finite(),
            n == self.pending().len(),
    {
        proof {
            crate::table::lemma_as_map_len(self.pending.entries());
            assert(self.pending().dom() =~= self.pending@.dom());
        }
        self.pending.len()
    }

    /// The number of registered connections.
    pub fn connection_count(&self) -> (n: usize)
        requires
            self.wf(),
        ensures
            self.connections().dom().finite(),
            n == self.connections().len(),
    {
        proof {
            crate::table::lemma_as_map_len(self.connections.entries());
            assert(self.connections().dom() =~= self.connections@.dom());
        }
        self.connections.len()
    }
}

} // verus!
