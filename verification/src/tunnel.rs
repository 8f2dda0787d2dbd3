//! The tunnel manager: relayed byte streams for shell and file sessions.
//!
//! A link pair has a client-facing end and an agent-facing end. Bytes
//! written at one end wait in a bounded buffer until the other end takes
//! them, in the order written. A full buffer takes no more: the writer has
//! to hold back until the reader has made room.

use crate::table::{as_map, distinct_keys, Keyed, Selector, Table};
use crate::text::{str_eq, texts};
use vstd::prelude::*;
use vstd::string::*;

verus! {

/// Where a link pair stands in its life. A closed pair is gone from the
/// manager.
#[derive(Debug, Clone, Copy, PartialEq, Eq, Structural)]
pub enum LinkState {
    /// The agent has been asked to open its end.
    Opening,
    /// Both ends are open.
    Open,
}

/// One of the two ends of a link pair.
#[derive(Debug, Clone, Copy, PartialEq, Eq, Structural)]
pub enum End {
    Client,
    Agent,
}

/// Why a tunnel operation was refused.
#[derive(Debug, Clone, Copy, PartialEq, Eq, Structural)]
pub enum TunnelError {
    /// No such session: it was never opened, or it is closed.
    Closed,
    /// The agent has not acknowledged the session yet.
    NotOpen,
    /// A session with this identifier exists already.
    DuplicateSession,
}

/// Two ends of one relayed stream, under their session identifier.
#[derive(Debug, PartialEq, Eq)]
pub struct LinkPair {
    pub session: String,
    /// The routing key of the agent.
    pub agent: String,
    pub state: LinkState,
    /// Bytes from the client that the agent's end has not taken yet.
    pub to_agent: Vec<u8>,
    /// Bytes from the agent that the client's end has not taken yet.
    pub to_client: Vec<u8>,
    /// When bytes last moved, or the pair was opened.
    pub last_active: u64,
}

/// The model of a [`LinkPair`], without its identifier.
pub struct LinkInfo {
    pub agent: Seq<char>,
    pub state: LinkState,
    pub to_agent: Seq<u8>,
    pub to_client: Seq<u8>,
    pub last_active: u64,
}

impl LinkPair {
    /// The pair without its identifier.
    pub open spec fn info(self) -> LinkInfo {
        LinkInfo {
            agent: self.agent@,
            state: self.state,
            to_agent: self.to_agent@,
            to_client: self.to_client@,
            last_active: self.last_active,
        }
    }
}

impl Keyed for LinkPair {
    open spec fn key(&self) -> Seq<char> {
        self.session@
    }

    fn key_ref(&self) -> (k: &str) {
        self.session.as_str()
    }
}

/// The pairs of a table, each without its identifier.
pub open spec fn link_infos(m: Map<Seq<char>, LinkPair>) -> Map<Seq<char>, LinkInfo> {
    m.map_values(|p: LinkPair| p.info())
}

/// How many bytes a buffer can still take.
pub open spec fn room(buf: Seq<u8>, cap: nat) -> nat {
    if buf.len() >= cap {
        0
    } else {
        (cap - buf.len()) as nat
    }
}

/// How many bytes of `data` a buffer takes.
pub open spec fn accepted(buf: Seq<u8>, data: Seq<u8>, cap: nat) -> nat {
    if data.len() <= room(buf, cap) {
        data.len()
    } else {
        room(buf, cap)
    }
}

/// The buffer after `data` was written: the bytes that fit are at its end.
pub open spec fn after_write(buf: Seq<u8>, data: Seq<u8>, cap: nat) -> Seq<u8> {
    buf + data.take(accepted(buf, data, cap) as int)
}

/// How many bytes a reader that asks for `max` gets.
pub open spec fn granted(buf: Seq<u8>, max: nat) -> nat {
    if max <= buf.len() {
        max
    } else {
        buf.len()
    }
}

/// What a reader that asks for `max` bytes gets: the oldest bytes.
pub open spec fn taken(buf: Seq<u8>, max: nat) -> Seq<u8> {
    buf.take(granted(buf, max) as int)
}

/// The buffer after a reader took up to `max` bytes.
pub open spec fn after_read(buf: Seq<u8>, max: nat) -> Seq<u8> {
    buf.skip(granted(buf, max) as int)
}

/// A step at one direction of a pair.
pub enum PipeOp {
    /// The writer offers these bytes.
    Write(Seq<u8>),
    /// The reader asks for up to this many bytes.
    Read(nat),
}

/// What has happened at one direction of a pair.
pub struct PipeTrace {
    /// Every byte that was accepted from the writer, in order.
    pub written: Seq<u8>,
    /// Every byte that was handed to the reader, in order.
    pub delivered: Seq<u8>,
    /// What waits in the buffer.
    pub buffered: Seq<u8>,
}

/// One direction of a pair after a run of steps, from an empty buffer of
/// capacity `cap`.
pub open spec fn run(ops: Seq<PipeOp>, cap: nat) -> PipeTrace
    decreases ops.len(),
{
    if ops.len() == 0 {
        PipeTrace { written: Seq::empty(), delivered: Seq::empty(), buffered: Seq::empty() }
    } else {
        let t = run(ops.drop_last(), cap);
        match ops.last() {
            PipeOp::Write(data) => PipeTrace {
                written: t.written + data.take(accepted(t.buffered, data, cap) as int),
                delivered: t.delivered,
                buffered: after_write(t.buffered, data, cap),
            },
            PipeOp::Read(max) => PipeTrace {
                written: t.written,
                delivered: t.delivered + taken(t.buffered, max),
                buffered: after_read(t.buffered, max),
            },
        }
    }
}

/// A link delivers what was written, in the order written, without loss or
/// duplication, however writes and reads alternate and however small the
/// buffer: at every moment the accepted bytes are the delivered bytes
/// followed by the buffered ones, and the buffer holds no more than its
/// capacity.
pub proof fn lemma_pipe_delivers_in_order(ops: Seq<PipeOp>, cap: nat)
    ensures
        run(ops, cap).written == run(ops, cap).delivered + run(ops, cap).buffered,
        run(ops, cap).buffered.len() <= cap,
        run(ops, cap).delivered.is_prefix_of(run(ops, cap).written),
    decreases ops.len(),
{
    let r = run(ops, cap);
    if ops.len() == 0 {
        assert(r.written =~= r.delivered + r.buffered);
    } else {
        lemma_pipe_delivers_in_order(ops.drop_last(), cap);
        let t = run(ops.drop_last(), cap);
        match ops.last() {
            PipeOp::Write(data) => {
                assert(r.written =~= r.delivered + r.buffered);
            },
            PipeOp::Read(max) => {
                let n = granted(t.buffered, max) as int;
                assert(t.buffered =~= t.buffered.take(n) + t.buffered.skip(n));
                assert(r.written =~= r.delivered + r.buffered);
            },
        }
    }
    assert(r.delivered =~= r.written.subrange(0, r.delivered.len() as int));
}

/// Once the reader has taken everything, it has every byte that was
/// written.
pub proof fn lemma_pipe_drained(ops: Seq<PipeOp>, cap: nat)
    requires
        run(ops, cap).buffered.len() == 0,
    ensures
        run(ops, cap).delivered == run(ops, cap).written,
{
    lemma_pipe_delivers_in_order(ops, cap);
    assert(run(ops, cap).delivered =~= run(ops, cap).written);
}

/// The buffer that holds what was written at `from`.
pub open spec fn outbound(p: LinkInfo, from: End) -> Seq<u8> {
    match from {
        End::Client => p.to_agent,
        End::Agent => p.to_client,
    }
}

/// The buffer that holds what the end `at` is to read.
pub open spec fn inbound(p: LinkInfo, at: End) -> Seq<u8> {
    match at {
        End::Client => p.to_client,
        End::Agent => p.to_agent,
    }
}

/// The pair with the buffer of what was written at `from` replaced, active
/// at `now`.
pub open spec fn with_outbound(p: LinkInfo, from: End, buf: Seq<u8>, now: u64) -> LinkInfo {
    match from {
        End::Client => LinkInfo {
            agent: p.agent,
            state: p.state,
            to_agent: buf,
            to_client: p.to_client,
            last_active: now,
        },
        End::Agent => LinkInfo {
            agent: p.agent,
            state: p.state,
            to_agent: p.to_agent,
            to_client: buf,
            last_active: now,
        },
    }
}

/// The other end.
pub open spec fn peer(e: End) -> End {
    match e {
        End::Client => End::Agent,
        End::Agent => End::Client,
    }
}

/// A pair as it is opened.
pub open spec fn opening(agent: Seq<char>, now: u64) -> LinkInfo {
    LinkInfo {
        agent,
        state: LinkState::Opening,
        to_agent: Seq::empty(),
        to_client: Seq::empty(),
        last_active: now,
    }
}

/// The pair once the agent has acknowledged it.
pub open spec fn acknowledged(p: LinkInfo, now: u64) -> LinkInfo {
    LinkInfo {
        agent: p.agent,
        state: LinkState::Open,
        to_agent: p.to_agent,
        to_client: p.to_client,
        last_active: now,
    }
}

/// Nothing has moved on the pair for `timeout` or longer.
pub open spec fn idle(last_active: u64, now: u64, timeout: u64) -> bool {
    now - last_active >= timeout
}

/// The sessions of the agent under `key`.
pub open spec fn sessions_of(links: Map<Seq<char>, LinkInfo>, key: Seq<char>) -> Map<
    Seq<char>,
    LinkInfo,
> {
    links.restrict(Set::new(|s: Seq<char>| links[s].agent == key))
}

/// The sessions of the other agents.
pub open spec fn sessions_beside(links: Map<Seq<char>, LinkInfo>, key: Seq<char>) -> Map<
    Seq<char>,
    LinkInfo,
> {
    links.restrict(Set::new(|s: Seq<char>| links[s].agent != key))
}

/// The sessions that are idle at `now`.
pub open spec fn idle_sessions(links: Map<Seq<char>, LinkInfo>, now: u64, timeout: u64) -> Map<
    Seq<char>,
    LinkInfo,
> {
    links.restrict(Set::new(|s: Seq<char>| idle(links[s].last_active, now, timeout)))
}

/// The sessions that are not idle at `now`.
pub open spec fn busy_sessions(links: Map<Seq<char>, LinkInfo>, now: u64, timeout: u64) -> Map<
    Seq<char>,
    LinkInfo,
> {
    links.restrict(Set::new(|s: Seq<char>| !idle(links[s].last_active, now, timeout)))
}

/// The pairs in `batch` are exactly those of `part`, each once.
pub open spec fn lists_links(batch: Seq<LinkPair>, part: Map<Seq<char>, LinkInfo>) -> bool {
    distinct_keys(batch) && link_infos(as_map(batch)) == part
}

/// Closing an agent's sessions closes those and no others: a session of
/// another agent stays, unchanged.
pub proof fn lemma_close_spares_others(
    links: Map<Seq<char>, LinkInfo>,
    key: Seq<char>,
    session: Seq<char>,
)
    requires
        links.contains_key(session),
    ensures
        links[session].agent == key ==> sessions_of(links, key).contains_key(session)
            && !sessions_beside(links, key).contains_key(session),
        links[session].agent != key ==> !sessions_of(links, key).contains_key(session)
            && sessions_beside(links, key).contains_key(session) && sessions_beside(
            links,
            key,
        )[session] == links[session],
{
}

/// Picks the pairs of the agent under `key`.
pub struct OfAgent {
    pub key: String,
}

impl Selector<LinkPair> for OfAgent {
    open spec fn picks(&self, e: &LinkPair) -> bool {
        e.agent@ == self.key@
    }

    fn test(&self, e: &LinkPair) -> (b: bool) {
        str_eq(e.agent.as_str(), self.key.as_str())
    }
}

/// Picks the pairs of the agents under one of `keys`.
pub struct OfAgents {
    pub keys: Vec<String>,
}

impl Selector<LinkPair> for OfAgents {
    open spec fn picks(&self, e: &LinkPair) -> bool {
        texts(self.keys@).contains(e.agent@)
    }

    fn test(&self, e: &LinkPair) -> (b: bool) {
        let mut i: usize = 0;
        while i < self.keys.len()
            invariant
                i <= self.keys@.len(),
                forall|j: int| 0 <= j < i ==> #[trigger] texts(self.keys@)[j] != e.agent@,
            decreases self.keys@.len() - i,
        {
            if str_eq(self.keys[i].as_str(), e.agent.as_str()) {
                assert(texts(self.keys@)[i as int] == e.agent@);
                return true;
            }
            i = i + 1;
        }
        false
    }
}

/// The sessions of the agents under one of `keys`.
pub open spec fn sessions_among(links: Map<Seq<char>, LinkInfo>, keys: Set<Seq<char>>) -> Map<
    Seq<char>,
    LinkInfo,
> {
    links.restrict(Set::new(|s: Seq<char>| keys.contains(links[s].agent)))
}

/// The sessions of the agents under none of `keys`.
pub open spec fn sessions_outside(links: Map<Seq<char>, LinkInfo>, keys: Set<Seq<char>>) -> Map<
    Seq<char>,
    LinkInfo,
> {
    links.restrict(Set::new(|s: Seq<char>| !keys.contains(links[s].agent)))
}

/// Picks the pairs that are idle at `now`.
pub struct IdleAt {
    pub now: u64,
    pub timeout: u64,
}

impl Selector<LinkPair> for IdleAt {
    open spec fn picks(&self, e: &LinkPair) -> bool {
        idle(e.last_active, self.now, self.timeout)
    }

    fn test(&self, e: &LinkPair) -> (b: bool) {
        self.now >= e.last_active && self.now - e.last_active >= self.timeout
    }
}

/// Appends to `buf` as many bytes of `data` as fit under `cap`; says how
/// many.
pub fn fill(buf: &mut Vec<u8>, data: &[u8], cap: usize) -> (n: usize)
    ensures
        n == accepted(old(buf)@, data@, cap as nat),
        final(buf)@ == after_write(old(buf)@, data@, cap as nat),
{
    let free: usize = if buf.len() >= cap {
        0
    } else {
        cap - buf.len()
    };
    let n: usize = if data.len() <= free {
        data.len()
    } else {
        free
    };
    let mut i: usize = 0;
    while i < n
        invariant
            i <= n <= data@.len(),
            buf@ == old(buf)@ + data@.take(i as int),
        decreases n - i,
    {
        buf.push(data[i]);
        assert(data@.take(i + 1) =~= data@.take(i as int).push(data@[i as int]));
        i = i + 1;
    }
    n
}

/// Takes up to `max` of the oldest bytes out of `buf`.
pub fn drain_front(buf: &mut Vec<u8>, max: usize) -> (out: Vec<u8>)
    ensures
        out@ == taken(old(buf)@, max as nat),
        final(buf)@ == after_read(old(buf)@, max as nat),
{
    let n: usize = if max <= buf.len() {
        max
    } else {
        buf.len()
    };
    let mut rest = buf.split_off(n);
    core::mem::swap(buf, &mut rest);
    rest
}

/// The owner of every link pair.
pub struct TunnelManager {
    capacity: usize,
    idle_timeout: u64,
    links: Table<LinkPair>,
}

impl TunnelManager {
    /// How many bytes a buffer holds at most.
    pub closed spec fn capacity(&self) -> nat {
        self.capacity as nat
    }

    /// After how long without traffic a session is closed.
    pub closed spec fn idle_timeout(&self) -> u64 {
        self.idle_timeout
    }

    /// The open and opening sessions, each under its identifier.
    pub closed spec fn sessions(&self) -> Map<Seq<char>, LinkInfo> {
        link_infos(self.links@)
    }

    /// The table is sound, the limits are not zero, and no buffer holds
    /// more than the capacity.
    pub closed spec fn wf(&self) -> bool {
        &&& self.links.wf()
        &&& self.capacity > 0
        &&& self.idle_timeout > 0
        &&& forall|s: Seq<char>| #[trigger]
            self.links@.contains_key(s) ==> self.links@[s].to_agent@.len() <= self.capacity
                && self.links@[s].to_client@.len() <= self.capacity
    }

    /// No buffer holds more than the capacity.
    pub proof fn lemma_bounded(&self, session: Seq<char>)
        requires
            self.wf(),
            self.sessions().contains_key(session),
        ensures
            self.sessions()[session].to_agent.len() <= self.capacity(),
            self.sessions()[session].to_client.len() <= self.capacity(),
            self.capacity() > 0,
            self.idle_timeout() > 0,
    {
        assert(self.links@.contains_key(session));
    }

    /// A manager without sessions; nothing for a capacity or a timeout of
    /// zero.
    pub fn new(capacity: usize, idle_timeout: u64) -> (r: Option<TunnelManager>)
        ensures
            r is Some <==> (capacity > 0 && idle_timeout > 0),
            r matches Some(m) ==> m.wf() && m.capacity() == capacity && m.idle_timeout()
                == idle_timeout && m.sessions() == Map::<Seq<char>, LinkInfo>::empty(),
    {
        if capacity == 0 || idle_timeout == 0 {
            return None;
        }
        let m = TunnelManager { capacity, idle_timeout, links: Table::new() };
        assert(m.sessions() =~= Map::<Seq<char>, LinkInfo>::empty());
        Some(m)
    }

    /// Starts a session toward the agent under `agent`: the pair waits for
    /// the agent's acknowledgement.
    pub fn open(&mut self, session: &str, agent: &str, now: u64) -> (r: Result<(), TunnelError>)
        requires
            old(self).wf(),
        ensures
            final(self).wf(),
            final(self).capacity() == old(self).capacity(),
            final(self).idle_timeout() == old(self).idle_timeout(),
            match r {
                Ok(_) => !old(self).sessions().contains_key(session@) && final(self).sessions()
                    == old(self).sessions().insert(session@, opening(agent@, now)),
                Err(e) => e == TunnelError::DuplicateSession && old(self).sessions().contains_key(
                    session@,
                ) && final(self).sessions() == old(self).sessions(),
            },
    {
        if self.links.position(session).is_some() {
            return Err(TunnelError::DuplicateSession);
        }
        let pair = LinkPair {
            session: String::from_str(session),
            agent: String::from_str(agent),
            state: LinkState::Opening,
            to_agent: Vec::new(),
            to_client: Vec::new(),
            last_active: now,
        };
        self.links.add(pair);
        proof {
            assert(self.links@ == old(self).links@.insert(session@, pair));
            assert(pair.info() =~= opening(agent@, now)) by {
                assert(pair.to_agent@ =~= Seq::<u8>::empty());
            }
            assert(self.sessions() =~= old(self).sessions().insert(
                session@,
                opening(agent@, now),
            ));
            assert forall|s: Seq<char>| #[trigger]
                self.links@.contains_key(s) implies self.links@[s].to_agent@.len()
                <= self.capacity && self.links@[s].to_client@.len() <= self.capacity by {
                if s != session@ {
                    assert(old(self).links@.contains_key(s));
                }
            }
        }
        Ok(())
    }

    /// Puts a pair that was taken out and changed back under its session.
    fn put_back(&mut self, pair: LinkPair, Ghost(was): Ghost<Map<Seq<char>, LinkPair>>)
        requires
            old(self).links.wf(),
            old(self).capacity > 0,
            old(self).idle_timeout > 0,
            old(self).links@ == was.remove(pair.key()),
            pair.to_agent@.len() <= old(self).capacity,
            pair.to_client@.len() <= old(self).capacity,
            forall|s: Seq<char>| #[trigger]
                was.contains_key(s) ==> was[s].to_agent@.len() <= old(self).capacity
                    && was[s].to_client@.len() <= old(self).capacity,
        ensures
            final(self).wf(),
            final(self).capacity == old(self).capacity,
            final(self).idle_timeout == old(self).idle_timeout,
            final(self).links@ == was.insert(pair.key(), pair),
            final(self).sessions() == link_infos(was).insert(pair.key(), pair.info()),
    {
        self.links.add(pair);
        proof {
            assert(self.links@ =~= was.insert(pair.key(), pair));
            assert(self.sessions() =~= link_infos(was).insert(pair.key(), pair.info()));
            assert forall|s: Seq<char>| #[trigger]
                self.links@.contains_key(s) implies self.links@[s].to_agent@.len()
                <= self.capacity && self.links@[s].to_client@.len() <= self.capacity by {
                if s != pair.key() {
                    assert(was.contains_key(s));
                }
            }
        }
    }

    /// The agent has opened its end: the pair is open.
    pub fn acknowledge(&mut self, session: &str, now: u64) -> (r: Result<(), TunnelError>)
        requires
            old(self).wf(),
        ensures
            final(self).wf(),
            final(self).capacity() == old(self).capacity(),
            final(self).idle_timeout() == old(self).idle_timeout(),
            match r {
                Ok(_) => old(self).sessions().contains_key(session@) && final(self).sessions()
                    == old(self).sessions().insert(
                    session@,
                    acknowledged(old(self).sessions()[session@], now),
                ),
                Err(e) => e == TunnelError::Closed && !old(self).sessions().contains_key(session@)
                    && final(self).sessions() == old(self).sessions(),
            },
    {
        let i = match self.links.position(session) {
            Some(i) => i,
            None => {
                return Err(TunnelError::Closed);
            },
        };
        let ghost was = self.links@;
        let mut pair = self.links.take_at(i);
        pair.state = LinkState::Open;
        pair.last_active = now;
        self.put_back(pair, Ghost(was));
        Ok(())
    }

    /// Writes `data` at the end `from`: as many bytes as the buffer toward
    /// the other end has room for are accepted, in order, and their number
    /// is returned. The writer holds the rest back.
    pub fn write(&mut self, session: &str, from: End, data: &[u8], now: u64) -> (r: Result<
        usize,
        TunnelError,
    >)
        requires
            old(self).wf(),
        ensures
            final(self).wf(),
            final(self).capacity() == old(self).capacity(),
            final(self).idle_timeout() == old(self).idle_timeout(),
            match r {
                Ok(n) => old(self).sessions().contains_key(session@) && old(self).sessions()[session@].state == LinkState::Open && n == accepted(
                    outbound(old(self).sessions()[session@], from),
                    data@,
                    old(self).capacity(),
                ) && final(self).sessions() == old(self).sessions().insert(
                    session@,
                    with_outbound(
                        old(self).sessions()[session@],
                        from,
                        after_write(
                            outbound(old(self).sessions()[session@], from),
                            data@,
                            old(self).capacity(),
                        ),
                        now,
                    ),
                ),
                Err(TunnelError::Closed) => !old(self).sessions().contains_key(session@) && final(self).sessions() == old(self).sessions(),
                Err(TunnelError::NotOpen) => old(self).sessions().contains_key(session@) && old(self).sessions()[session@].state != LinkState::Open && final(self).sessions() == old(self).sessions(),
                Err(TunnelError::DuplicateSession) => false,
            },
    {
        let i = match self.links.position(session) {
            Some(i) => i,
            None => {
                return Err(TunnelError::Closed);
            },
        };
        match self.links.at(i).state {
            LinkState::Open => {},
            LinkState::Opening => {
                return Err(TunnelError::NotOpen);
            },
        }
        let ghost was = self.links@;
        let cap = self.capacity;
        let mut pair = self.links.take_at(i);
        let n = match from {
            End::Client => fill(&mut pair.to_agent, data, cap),
            End::Agent => fill(&mut pair.to_client, data, cap),
        };
        pair.last_active = now;
        self.put_back(pair, Ghost(was));
        Ok(n)
    }

    /// Reads at the end `at`: up to `max` of the oldest bytes that were
    /// written at the other end leave the buffer, in the order written.
    pub fn read(&mut self, session: &str, at: End, max: usize, now: u64) -> (r: Result<
        Vec<u8>,
        TunnelError,
    >)
        requires
            old(self).wf(),
        ensures
            final(self).wf(),
            final(self).capacity() == old(self).capacity(),
            final(self).idle_timeout() == old(self).idle_timeout(),
            match r {
                Ok(bytes) => old(self).sessions().contains_key(session@) && old(self).sessions()[session@].state == LinkState::Open && bytes@ == taken(
                    inbound(old(self).sessions()[session@], at),
                    max as nat,
                ) && final(self).sessions() == old(self).sessions().insert(
                    session@,
                    with_outbound(
                        old(self).sessions()[session@],
                        peer(at),
                        after_read(inbound(old(self).sessions()[session@], at), max as nat),
                        now,
                    ),
                ),
                Err(TunnelError::Closed) => !old(self).sessions().contains_key(session@) && final(self).sessions() == old(self).sessions(),
                Err(TunnelError::NotOpen) => old(self).sessions().contains_key(session@) && old(self).sessions()[session@].state != LinkState::Open && final(self).sessions() == old(self).sessions(),
                Err(TunnelError::DuplicateSession) => false,
            },
    {
        let i = match self.links.position(session) {
            Some(i) => i,
            None => {
                return Err(TunnelError::Closed);
            },
        };
        match self.links.at(i).state {
            LinkState::Open => {},
            LinkState::Opening => {
                return Err(TunnelError::NotOpen);
            },
        }
        let ghost was = self.links@;
        let mut pair = self.links.take_at(i);
        let bytes = match at {
            End::Client => drain_front(&mut pair.to_client, max),
            End::Agent => drain_front(&mut pair.to_agent, max),
        };
        pair.last_active = now;
        self.put_back(pair, Ghost(was));
        Ok(bytes)
    }

    /// Closes the session: both ends are torn down and what was buffered is
    /// dropped. Hands the pair back if there was one.
    pub fn close(&mut self, session: &str) -> (r: Option<LinkPair>)
        requires
            old(self).wf(),
        ensures
            final(self).wf(),
            final(self).capacity() == old(self).capacity(),
            final(self).idle_timeout() == old(self).idle_timeout(),
            final(self).sessions() == old(self).sessions().remove(session@),
            match r {
                Some(p) => old(self).sessions().contains_key(session@) && p.info() == old(self).sessions()[session@] && p.session@ == session@,
                None => !old(self).sessions().contains_key(session@),
            },
    {
        let ghost was = self.links@;
        let r = self.links.take(session);
        proof {
            assert(self.sessions() =~= old(self).sessions().remove(session@));
            assert forall|s: Seq<char>| #[trigger]
                self.links@.contains_key(s) implies self.links@[s].to_agent@.len()
                <= self.capacity && self.links@[s].to_client@.len() <= self.capacity by {
                assert(was.contains_key(s));
            }
            if r is Some {
                crate::table::lemma_as_map_key(old(self).links.entries(), session@);
            }
        }
        r
    }

    /// Closes every session of the agent under `key` and hands the pairs
    /// back; the sessions of other agents are not touched.
    pub fn close_agent(&mut self, key: &str) -> (closed: Vec<LinkPair>)
        requires
            old(self).wf(),
        ensures
            final(self).wf(),
            final(self).capacity() == old(self).capacity(),
            final(self).idle_timeout() == old(self).idle_timeout(),
            final(self).sessions() == sessions_beside(old(self).sessions(), key@),
            lists_links(closed@, sessions_of(old(self).sessions(), key@)),
    {
        let ghost was = self.links@;
        let sel = OfAgent { key: String::from_str(key) };
        let closed = self.links.drain(&sel);
        proof {
            assert(self.sessions() =~= sessions_beside(old(self).sessions(), key@));
            assert(link_infos(as_map(closed@)) =~= sessions_of(old(self).sessions(), key@));
            assert forall|s: Seq<char>| #[trigger]
                self.links@.contains_key(s) implies self.links@[s].to_agent@.len()
                <= self.capacity && self.links@[s].to_client@.len() <= self.capacity by {
                assert(was.contains_key(s));
            }
        }
        closed
    }

    /// Closes every session on which nothing has moved for the idle timeout
    /// and hands the pairs back.
    pub fn sweep(&mut self, now: u64) -> (closed: Vec<LinkPair>)
        requires
            old(self).wf(),
        ensures
            final(self).wf(),
            final(self).capacity() == old(self).capacity(),
            final(self).idle_timeout() == old(self).idle_timeout(),
            final(self).sessions() == busy_sessions(
                old(self).sessions(),
                now,
                old(self).idle_timeout(),
            ),
            lists_links(
                closed@,
                idle_sessions(old(self).sessions(), now, old(self).idle_timeout()),
            ),
    {
        let ghost was = self.links@;
        let sel = IdleAt { now, timeout: self.idle_timeout };
        let closed = self.links.drain(&sel);
        proof {
            assert(self.sessions() =~= busy_sessions(
                old(self).sessions(),
                now,
                old(self).idle_timeout(),
            ));
            assert(link_infos(as_map(closed@)) =~= idle_sessions(
                old(self).sessions(),
                now,
                old(self).idle_timeout(),
            ));
            assert forall|s: Seq<char>| #[trigger]
                self.links@.contains_key(s) implies self.links@[s].to_agent@.len()
                <= self.capacity && self.links@[s].to_client@.len() <= self.capacity by {
                assert(was.contains_key(s));
            }
        }
        closed
    }

    /// Closes every session of the agents under one of `keys` and hands the
    /// pairs back; the sessions of other agents are not touched.
    pub fn close_agents(&mut self, keys: Vec<String>) -> (closed: Vec<LinkPair>)
        requires
            old(self).wf(),
        ensures
            final(self).wf(),
            final(self).capacity() == old(self).capacity(),
            final(self).idle_timeout() == old(self).idle_timeout(),
            final(self).sessions() == sessions_outside(
                old(self).sessions(),
                texts(keys@).to_set(),
            ),
            lists_links(closed@, sessions_among(old(self).sessions(), texts(keys@).to_set())),
    {
        let ghost was = self.links@;
        let sel = OfAgents { keys };
        let closed = self.links.drain(&sel);
        proof {
            assert(self.sessions() =~= sessions_outside(
                old(self).sessions(),
                texts(keys@).to_set(),
            ));
            assert(link_infos(as_map(closed@)) =~= sessions_among(
                old(self).sessions(),
                texts(keys@).to_set(),
            ));
            assert forall|s: Seq<char>| #[trigger]
                self.links@.contains_key(s) implies self.links@[s].to_agent@.len()
                <= self.capacity && self.links@[s].to_client@.len() <= self.capacity by {
                assert(was.contains_key(s));
            }
        }
        closed
    }

    /// The routing key of the agent of `session` and the state of the pair,
    /// if the session exists.
    pub fn lookup(&self, session: &str) -> (r: Option<(String, LinkState)>)
        requires
            self.wf(),
        ensures
            match r {
                Some(p) => self.sessions().contains_key(session@) && p.0@
                    == self.sessions()[session@].agent && p.1 == self.sessions()[session@].state,
                None => !self.sessions().contains_key(session@),
            },
    {
        match self.links.get(session) {
            Some(pair) => Some((pair.agent.clone(), pair.state)),
            None => None,
        }
    }

    /// How many bytes wait for the end `at` of `session`, if the session
    /// exists.
    pub fn buffered(&self, session: &str, at: End) -> (r: Option<usize>)
        requires
            self.wf(),
        ensures
            match r {
                Some(n) => self.sessions().contains_key(session@) && n == inbound(
                    self.sessions()[session@],
                    at,
                ).len(),
                None => !self.sessions().contains_key(session@),
            },
    {
        match self.links.get(session) {
            Some(pair) => Some(
                match at {
                    End::Client => pair.to_client.len(),
                    End::Agent => pair.to_agent.len(),
                },
            ),
            None => None,
        }
    }

    /// The number of sessions.
    pub fn len(&self) -> (n: usize)
        requires
            self.wf(),
        ensures
            self.sessions().dom().finite(),
            n == self.sessions().len(),
    {
        proof {
            crate::table::lemma_as_map_len(self.links.entries());
            assert(self.sessions().dom() =~= self.links@.dom());
        }
        self.links.len()
    }
}

} // verus!
