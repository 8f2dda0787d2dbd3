//! Dispatch: where the scheduler, the relay and the tunnel manager meet.
//!
//! Each component owns its own state. The functions here call their entry
//! points in turn: a due job becomes one request per target, the end of a
//! connection fails its requests and closes its sessions.

use crate::ident::{get_nanid, is_suffix, tagged, SUFFIX_LEN};
use crate::protocol::{
    wire, Envelope, EnvelopeView, ErrorKind, JobAction, JobActionView, Payload, PayloadView,
    SftpRequest, SftpRequestView, TunnelOp,
};
use crate::relay::{
    addressed, after_drop, after_expiry, deadline_of, expired, heard_conns, is_drop_of, lists,
    lists_conns, orphaned, reachable, send_outcome, silent_conns, spared, AgentConnection,
    ConnInfo, Delivery, Dropped, Inbound, PendingInfo, Relay, RelayConfig, SendError, Tick,
};
use crate::scheduler::{after_pop, due_jobs, Scheduled, Scheduler};
use crate::table::{as_map, distinct_keys, has_key, index_of, Keyed};
use crate::text::texts;
use crate::tunnel::{
    accepted, acknowledged, after_read, after_write, busy_sessions, idle_sessions, inbound,
    lists_links, opening, sessions_among, sessions_beside, sessions_of, sessions_outside, taken,
    with_outbound, End, LinkInfo, LinkPair, LinkState, TunnelManager,
};
use vstd::prelude::*;
use vstd::string::*;

verus! {

/// The envelope that dispatches `action` under `corr_id`.
pub open spec fn job_envelope(corr_id: Seq<char>, action: JobActionView) -> EnvelopeView {
    EnvelopeView { corr_id, payload: PayloadView::Job(action) }
}

/// `id` is `tag`, a hyphen and a random part.
pub open spec fn has_tag(id: Seq<char>, tag: Seq<char>) -> bool {
    &&& id.len() == tag.len() + 1 + SUFFIX_LEN
    &&& is_suffix(id.subrange(tag.len() as int + 1, id.len() as int))
    &&& id == tagged(tag, id.subrange(tag.len() as int + 1, id.len() as int))
}

/// Some identifier that is `tag`, a hyphen and a random part is a key of `m`.
pub open spec fn holds_tagged<V>(m: Map<Seq<char>, V>, tag: Seq<char>) -> bool {
    exists|id: Seq<char>| #[trigger] has_tag(id, tag) && m.contains_key(id)
}

/// Dispatches `action` to the agent under `target`, as a request with the
/// correlation identifier `corr_id`.
pub fn dispatch_with(
    relay: &mut Relay,
    target: &str,
    corr_id: &str,
    action: &JobAction,
    now: u64,
) -> (r: Result<Delivery, SendError>)
    requires
        old(relay).wf(),
    ensures
        final(relay).wf(),
        final(relay).config() == old(relay).config(),
        final(relay).connections() == old(relay).connections(),
        send_outcome(
            old(relay).connections(),
            old(relay).pending(),
            final(relay).pending(),
            old(relay).config(),
            target@,
            job_envelope(corr_id@, action@),
            now,
            r,
        ),
{
    let e = Envelope::new(corr_id, Payload::Job(action.duplicate()));
    relay.send(target, &e, now)
}

/// A request that was handed to a connection.
#[derive(Debug, PartialEq, Eq)]
pub struct Dispatched {
    /// The correlation identifier that the answer will carry.
    pub corr_id: String,
    pub delivery: Delivery,
}

/// Dispatches `action` to the agent under `target`, as a request with a
/// fresh correlation identifier that starts with `tag`.
///
/// The target is unreachable exactly when it has no live connection. The
/// identifier is random: should it be one that still waits, the request is
/// refused as a duplicate and nothing changes. Where no identifier with the
/// tag waits, a reachable target always gets the request.
pub fn dispatch(relay: &mut Relay, target: &str, tag: &str, action: &JobAction, now: u64) -> (r:
    Result<Dispatched, SendError>)
    requires
        old(relay).wf(),
    ensures
        final(relay).wf(),
        final(relay).config() == old(relay).config(),
        final(relay).connections() == old(relay).connections(),
        (r is Err && r->Err_0 == SendError::UnreachableTarget) <==> !reachable(
            old(relay).connections(),
            target@,
            now,
            old(relay).config(),
        ),
        r is Err ==> final(relay).pending() == old(relay).pending(),
        (r is Err && r->Err_0 == SendError::DuplicateCorrelation) ==> holds_tagged(
            old(relay).pending(),
            tag@,
        ),
        reachable(old(relay).connections(), target@, now, old(relay).config()) && !holds_tagged(
            old(relay).pending(),
            tag@,
        ) ==> r is Ok,
        r matches Ok(d) ==> has_tag(d.corr_id@, tag@) && send_outcome(
            old(relay).connections(),
            old(relay).pending(),
            final(relay).pending(),
            old(relay).config(),
            target@,
            job_envelope(d.corr_id@, action@),
            now,
            Ok::<Delivery, SendError>(d.delivery),
        ),
{
    let corr_id = get_nanid(tag);
    assert(has_tag(corr_id@, tag@));
    match dispatch_with(relay, target, corr_id.as_str(), action, now) {
        Ok(delivery) => Ok(Dispatched { corr_id, delivery }),
        Err(e) => Err(e),
    }
}

/// One firing of a job toward one of its targets.
#[derive(Debug, PartialEq, Eq)]
pub struct Occurrence {
    pub job_id: String,
    pub target: String,
    /// When the job was due.
    pub due: u64,
    /// The request that went out, or why none did.
    pub outcome: Result<Dispatched, SendError>,
}

/// The occurrence failed because its target had no live connection.
pub open spec fn unreachable_outcome(o: Occurrence) -> bool {
    o.outcome is Err && o.outcome->Err_0 == SendError::UnreachableTarget
}

/// What went out for the occurrence, if anything did: the bytes of the
/// envelope that dispatches `action` under a fresh identifier with the tag,
/// for the connection of the occurrence's target.
pub open spec fn sent_as(
    o: Occurrence,
    conns: Map<Seq<char>, ConnInfo>,
    tag: Seq<char>,
    action: JobActionView,
) -> bool {
    o.outcome matches Ok(d) ==> {
        &&& has_tag(d.corr_id@, tag)
        &&& d.delivery.conn_id == conns[o.target@].conn_id
        &&& d.delivery.bytes@ == wire(job_envelope(d.corr_id@, action))
    }
}

/// The occurrence is that of the job `job_id`, due at `due`, toward
/// `target`; it is unreachable exactly when the target had no live
/// connection; and what went out, if anything, is the job's action.
pub open spec fn occurrence_of(
    o: Occurrence,
    job_id: Seq<char>,
    target: Seq<char>,
    due: u64,
    conns: Map<Seq<char>, ConnInfo>,
    c: RelayConfig,
    now: u64,
    tag: Seq<char>,
    action: JobActionView,
) -> bool {
    &&& o.job_id@ == job_id
    &&& o.target@ == target
    &&& o.due == due
    &&& unreachable_outcome(o) <==> !reachable(conns, target, now, c)
    &&& sent_as(o, conns, tag, action)
}

/// Every request that waited in `before` waits in `after`, unchanged.
pub open spec fn keeps(before: Map<Seq<char>, PendingInfo>, after: Map<Seq<char>, PendingInfo>) -> bool {
    forall|id: Seq<char>| #[trigger]
        before.contains_key(id) ==> after.contains_key(id) && after[id] == before[id]
}

/// The occurrence is accounted for in `pending`: if its request went out,
/// the request waits, addressed to the occurrence's target until the
/// deadline of a request sent at `now`; if it was refused as a duplicate,
/// an identifier with the tag waits.
pub open spec fn waits_for(
    o: Occurrence,
    pending: Map<Seq<char>, PendingInfo>,
    c: RelayConfig,
    now: u64,
    tag: Seq<char>,
) -> bool {
    &&& o.outcome matches Ok(d) ==> pending.contains_key(d.corr_id@) && pending[d.corr_id@]
        == (PendingInfo { target: o.target@, deadline: deadline_of(now, c) })
    &&& (o.outcome is Err && o.outcome->Err_0 == SendError::DuplicateCorrelation)
        ==> holds_tagged(pending, tag)
}

/// The request of the occurrence went out under `id`.
pub open spec fn sent_under(o: Occurrence, id: Seq<char>) -> bool {
    o.outcome matches Ok(d) && d.corr_id@ == id
}

/// One of the occurrences in `occs` went out as a request under `id`.
pub open spec fn requested(occs: Seq<Occurrence>, id: Seq<char>) -> bool {
    exists|t: int| 0 <= t < occs.len() && sent_under(#[trigger] occs[t], id)
}

/// The requests that wait in `after` are those of `before` and those of the
/// occurrences in `occs` that went out, and no others.
pub open spec fn grown_by(
    before: Map<Seq<char>, PendingInfo>,
    after: Map<Seq<char>, PendingInfo>,
    occs: Seq<Occurrence>,
) -> bool {
    forall|id: Seq<char>| #[trigger]
        after.contains_key(id) <==> (before.contains_key(id) || requested(occs, id))
}

proof fn lemma_requested_push(occs: Seq<Occurrence>, o: Occurrence, id: Seq<char>)
    ensures
        requested(occs.push(o), id) <==> (requested(occs, id) || sent_under(o, id)),
{
    let more = occs.push(o);
    if requested(occs, id) {
        let t = choose|t: int| 0 <= t < occs.len() && sent_under(#[trigger] occs[t], id);
        assert(more[t] == occs[t]);
        assert(sent_under(more[t], id));
    }
    if sent_under(o, id) {
        assert(more[occs.len() as int] == o);
        assert(sent_under(more[occs.len() as int], id));
    }
    if requested(more, id) {
        let t = choose|t: int| 0 <= t < more.len() && sent_under(#[trigger] more[t], id);
        if t < occs.len() {
            assert(more[t] == occs[t]);
            assert(sent_under(occs[t], id));
        } else {
            assert(more[t] == o);
        }
    }
}

proof fn lemma_waits_kept(
    o: Occurrence,
    before: Map<Seq<char>, PendingInfo>,
    after: Map<Seq<char>, PendingInfo>,
    c: RelayConfig,
    now: u64,
    tag: Seq<char>,
)
    requires
        waits_for(o, before, c, now, tag),
        keeps(before, after),
    ensures
        waits_for(o, after, c, now, tag),
{
    if o.outcome is Ok {
        assert(before.contains_key(o.outcome->Ok_0.corr_id@));
    }
    if holds_tagged(before, tag) {
        let id = choose|id: Seq<char>| #[trigger] has_tag(id, tag) && before.contains_key(id);
        assert(has_tag(id, tag) && after.contains_key(id));
    }
}

/// Fires a job: one request to each of its targets, in their order, each
/// carrying the job's action under a fresh identifier with the tag. An
/// unreachable target fails that occurrence and no other. Afterwards the
/// requests that went out wait beside those that waited before, and nothing
/// else does.
pub fn fire(relay: &mut Relay, job: &Scheduled, tag: &str, now: u64) -> (out: Vec<Occurrence>)
    requires
        old(relay).wf(),
    ensures
        final(relay).wf(),
        final(relay).config() == old(relay).config(),
        final(relay).connections() == old(relay).connections(),
        keeps(old(relay).pending(), final(relay).pending()),
        grown_by(old(relay).pending(), final(relay).pending(), out@),
        out@.len() == job.job.targets@.len(),
        forall|i: int|
            0 <= i < out@.len() ==> occurrence_of(
                #[trigger] out@[i],
                job.job.id@,
                job.job.targets@[i]@,
                job.due,
                old(relay).connections(),
                old(relay).config(),
                now,
                tag@,
                job.job.action@,
            ),
        forall|i: int|
            0 <= i < out@.len() ==> waits_for(
                #[trigger] out@[i],
                final(relay).pending(),
                old(relay).config(),
                now,
                tag@,
            ),
{
    let mut out: Vec<Occurrence> = Vec::new();
    let mut i: usize = 0;
    proof {
        assert forall|id: Seq<char>| !requested(out@, id) by {}
    }
    while i < job.job.targets.len()
        invariant
            i <= job.job.targets@.len(),
            relay.wf(),
            relay.config() == old(relay).config(),
            relay.connections() == old(relay).connections(),
            keeps(old(relay).pending(), relay.pending()),
            grown_by(old(relay).pending(), relay.pending(), out@),
            out@.len() == i,
            forall|j: int|
                0 <= j < i ==> occurrence_of(
                    #[trigger] out@[j],
                    job.job.id@,
                    job.job.targets@[j]@,
                    job.due,
                    old(relay).connections(),
                    old(relay).config(),
                    now,
                    tag@,
                    job.job.action@,
                ),
            forall|j: int|
                0 <= j < i ==> waits_for(
                    #[trigger] out@[j],
                    relay.pending(),
                    old(relay).config(),
                    now,
                    tag@,
                ),
        decreases job.job.targets@.len() - i,
    {
        let target = &job.job.targets[i];
        let ghost before = relay.pending();
        let ghost so_far = out@;
        let outcome = dispatch(relay, target.as_str(), tag, &job.job.action, now);
        let o = Occurrence {
            job_id: job.job.id.clone(),
            target: target.clone(),
            due: job.due,
            outcome,
        };
        out.push(o);
        proof {
            let after = relay.pending();
            assert(keeps(before, after));
            assert(waits_for(o, after, old(relay).config(), now, tag@)) by {
                if o.outcome is Err && o.outcome->Err_0 == SendError::DuplicateCorrelation {
                    assert(holds_tagged(before, tag@));
                    assert(after == before);
                }
            }
            assert forall|id: Seq<char>| #[trigger]
                after.contains_key(id) <==> (old(relay).pending().contains_key(id) || requested(
                    out@,
                    id,
                )) by {
                lemma_requested_push(so_far, o, id);
                assert(before.contains_key(id) <==> (old(relay).pending().contains_key(id)
                    || requested(so_far, id)));
            }
            assert forall|j: int| 0 <= j < i + 1 implies waits_for(
                #[trigger] out@[j],
                after,
                old(relay).config(),
                now,
                tag@,
            ) by {
                if j < i {
                    assert(out@[j] == so_far[j]);
                    lemma_waits_kept(so_far[j], before, after, old(relay).config(), now, tag@);
                }
            }
            assert forall|j: int| 0 <= j < i + 1 implies occurrence_of(
                #[trigger] out@[j],
                job.job.id@,
                job.job.targets@[j]@,
                job.due,
                old(relay).connections(),
                old(relay).config(),
                now,
                tag@,
                job.job.action@,
            ) by {
                if j < i {
                    assert(out@[j] == so_far[j]);
                }
            }
        }
        i = i + 1;
    }
    out
}

/// What one turn of the scheduler's loop did.
#[derive(Debug, PartialEq, Eq)]
pub struct Round {
    /// The jobs that fired, as they were when they fired.
    pub fired: Vec<Scheduled>,
    /// For each job that fired, in the same place, its occurrences: one for
    /// each of its targets, in their order.
    pub occurrences: Vec<Vec<Occurrence>>,
}

/// The occurrences `occs` are those of `job` at `now`: one for each target,
/// in order, each unreachable exactly when its target had no live
/// connection, and each that went out carrying the job's action.
pub open spec fn occurrences_of(
    occs: Seq<Occurrence>,
    job: Scheduled,
    conns: Map<Seq<char>, ConnInfo>,
    c: RelayConfig,
    now: u64,
    tag: Seq<char>,
) -> bool {
    &&& occs.len() == job.job.targets@.len()
    &&& forall|t: int|
        0 <= t < occs.len() ==> occurrence_of(
            #[trigger] occs[t],
            job.job.id@,
            job.job.targets@[t]@,
            job.due,
            conns,
            c,
            now,
            tag,
            job.job.action@,
        )
}

/// Every occurrence in `occs` is accounted for in `pending`.
pub open spec fn all_wait(
    occs: Seq<Occurrence>,
    pending: Map<Seq<char>, PendingInfo>,
    c: RelayConfig,
    now: u64,
    tag: Seq<char>,
) -> bool {
    forall|t: int| 0 <= t < occs.len() ==> waits_for(#[trigger] occs[t], pending, c, now, tag)
}

/// One of the occurrences of the round went out as a request under `id`.
pub open spec fn requested_in_round(occurrences: Seq<Vec<Occurrence>>, id: Seq<char>) -> bool {
    exists|j: int| 0 <= j < occurrences.len() && requested((#[trigger] occurrences[j])@, id)
}

/// The requests that wait in `after` are those of `before` and those of the
/// round's occurrences that went out, and no others.
pub open spec fn grown_by_round(
    before: Map<Seq<char>, PendingInfo>,
    after: Map<Seq<char>, PendingInfo>,
    occurrences: Seq<Vec<Occurrence>>,
) -> bool {
    forall|id: Seq<char>| #[trigger]
        after.contains_key(id) <==> (before.contains_key(id) || requested_in_round(
            occurrences,
            id,
        ))
}

proof fn lemma_round_push(rounds: Seq<Vec<Occurrence>>, occs: Vec<Occurrence>, id: Seq<char>)
    ensures
        requested_in_round(rounds.push(occs), id) <==> (requested_in_round(rounds, id)
            || requested(occs@, id)),
{
    let more = rounds.push(occs);
    if requested_in_round(rounds, id) {
        let j = choose|j: int| 0 <= j < rounds.len() && requested((#[trigger] rounds[j])@, id);
        assert(more[j] == rounds[j]);
        assert(requested(more[j]@, id));
    }
    if requested(occs@, id) {
        assert(more[rounds.len() as int] == occs);
        assert(requested(more[rounds.len() as int]@, id));
    }
    if requested_in_round(more, id) {
        let j = choose|j: int| 0 <= j < more.len() && requested((#[trigger] more[j])@, id);
        if j < rounds.len() {
            assert(more[j] == rounds[j]);
            assert(requested(rounds[j]@, id));
        } else {
            assert(more[j] == occs);
        }
    }
}

/// One turn of the scheduler's loop at `now`: every job that is due fires
/// once toward each of its targets, then waits for its next time or is
/// retired. An unreachable target fails its occurrence only: the job keeps
/// its schedule, and the other occurrences go out, each carrying its job's
/// action. Afterwards the requests that went out wait beside those that
/// waited before, and nothing else does.
pub fn run_due(scheduler: &mut Scheduler, relay: &mut Relay, tag: &str, now: u64) -> (round: Round)
    requires
        old(scheduler).wf(),
        old(relay).wf(),
    ensures
        final(scheduler).wf(),
        final(scheduler).jobs() == after_pop(old(scheduler).jobs(), now),
        final(relay).wf(),
        final(relay).config() == old(relay).config(),
        final(relay).connections() == old(relay).connections(),
        keeps(old(relay).pending(), final(relay).pending()),
        grown_by_round(old(relay).pending(), final(relay).pending(), round.occurrences@),
        distinct_keys(round.fired@),
        crate::scheduler::job_infos(as_map(round.fired@)) == due_jobs(
            old(scheduler).jobs(),
            now,
        ),
        round.occurrences@.len() == round.fired@.len(),
        forall|j: int|
            0 <= j < round.fired@.len() ==> occurrences_of(
                (#[trigger] round.occurrences@[j])@,
                round.fired@[j],
                old(relay).connections(),
                old(relay).config(),
                now,
                tag@,
            ),
        forall|j: int|
            0 <= j < round.fired@.len() ==> all_wait(
                (#[trigger] round.occurrences@[j])@,
                final(relay).pending(),
                old(relay).config(),
                now,
                tag@,
            ),
{
    let fired = scheduler.pop_due(now);
    let mut occurrences: Vec<Vec<Occurrence>> = Vec::new();
    let mut j: usize = 0;
    proof {
        assert forall|id: Seq<char>| !requested_in_round(occurrences@, id) by {}
    }
    while j < fired.len()
        invariant
            j <= fired@.len(),
            occurrences@.len() == j,
            relay.wf(),
            relay.config() == old(relay).config(),
            relay.connections() == old(relay).connections(),
            keeps(old(relay).pending(), relay.pending()),
            grown_by_round(old(relay).pending(), relay.pending(), occurrences@),
            forall|a: int|
                0 <= a < j ==> occurrences_of(
                    (#[trigger] occurrences@[a])@,
                    fired@[a],
                    old(relay).connections(),
                    old(relay).config(),
                    now,
                    tag@,
                ),
            forall|a: int|
                0 <= a < j ==> all_wait(
                    (#[trigger] occurrences@[a])@,
                    relay.pending(),
                    old(relay).config(),
                    now,
                    tag@,
                ),
        decreases fired@.len() - j,
    {
        let ghost before = relay.pending();
        let ghost so_far = occurrences@;
        let occs = fire(relay, &fired[j], tag, now);
        occurrences.push(occs);
        proof {
            let after = relay.pending();
            assert(keeps(before, after));
            assert forall|id: Seq<char>| #[trigger]
                after.contains_key(id) <==> (old(relay).pending().contains_key(id)
                    || requested_in_round(occurrences@, id)) by {
                lemma_round_push(so_far, occs, id);
                assert(before.contains_key(id) <==> (old(relay).pending().contains_key(id)
                    || requested_in_round(so_far, id)));
                assert(after.contains_key(id) <==> (before.contains_key(id) || requested(
                    occs@,
                    id,
                )));
            }
            assert forall|a: int| 0 <= a < j + 1 implies occurrences_of(
                (#[trigger] occurrences@[a])@,
                fired@[a],
                old(relay).connections(),
                old(relay).config(),
                now,
                tag@,
            ) by {
                if a < j {
                    assert(occurrences@[a] == so_far[a]);
                }
            }
            assert forall|a: int| 0 <= a < j + 1 implies all_wait(
                (#[trigger] occurrences@[a])@,
                after,
                old(relay).config(),
                now,
                tag@,
            ) by {
                if a < j {
                    assert(occurrences@[a] == so_far[a]);
                    assert(all_wait(so_far[a]@, before, old(relay).config(), now, tag@));
                    assert forall|t: int| 0 <= t < so_far[a]@.len() implies waits_for(
                        #[trigger] so_far[a]@[t],
                        after,
                        old(relay).config(),
                        now,
                        tag@,
                    ) by {
                        lemma_waits_kept(
                            so_far[a]@[t],
                            before,
                            after,
                            old(relay).config(),
                            now,
                            tag@,
                        );
                    }
                }
            }
        }
        j = j + 1;
    }
    Round { fired, occurrences }
}

/// What the end of an agent's connection left behind.
#[derive(Debug, PartialEq, Eq)]
pub struct Disconnected {
    /// The transport session and the requests that fail.
    pub dropped: Dropped,
    /// The tunnel sessions that were closed.
    pub sessions: Vec<LinkPair>,
}

/// Ends the connection of the agent under `key`: its routing key is
/// released, every request that went to it fails and every tunnel session
/// of it is closed, all in this step. The requests and sessions of other
/// agents are not touched.
pub fn disconnect_agent(relay: &mut Relay, tunnels: &mut TunnelManager, key: &str) -> (d:
    Disconnected)
    requires
        old(relay).wf(),
        old(tunnels).wf(),
    ensures
        final(relay).wf(),
        final(relay).config() == old(relay).config(),
        is_drop_of(
            old(relay).connections(),
            old(relay).pending(),
            final(relay).connections(),
            final(relay).pending(),
            key@,
            d.dropped,
        ),
        final(tunnels).wf(),
        final(tunnels).capacity() == old(tunnels).capacity(),
        final(tunnels).idle_timeout() == old(tunnels).idle_timeout(),
        final(tunnels).sessions() == sessions_beside(old(tunnels).sessions(), key@),
        lists_links(d.sessions@, sessions_of(old(tunnels).sessions(), key@)),
{
    let dropped = relay.disconnect(key);
    let sessions = tunnels.close_agent(key);
    Disconnected { dropped, sessions }
}

/// Disconnecting an agent with K pending requests and M open sessions fails
/// exactly those K and closes exactly those M: a request or a session of
/// another agent is among what stays, unchanged, and not among what fails or
/// closes.
pub proof fn lemma_disconnect_is_local(
    pending: Map<Seq<char>, PendingInfo>,
    links: Map<Seq<char>, LinkInfo>,
    key: Seq<char>,
)
    ensures
        forall|id: Seq<char>| #[trigger]
            pending.contains_key(id) ==> (if pending[id].target == key {
                addressed(pending, key).contains_key(id) && !after_drop(pending, key).contains_key(
                    id,
                )
            } else {
                !addressed(pending, key).contains_key(id) && after_drop(pending, key).contains_key(
                    id,
                ) && after_drop(pending, key)[id] == pending[id]
            }),
        forall|s: Seq<char>| #[trigger]
            links.contains_key(s) ==> (if links[s].agent == key {
                sessions_of(links, key).contains_key(s) && !sessions_beside(
                    links,
                    key,
                ).contains_key(s)
            } else {
                !sessions_of(links, key).contains_key(s) && sessions_beside(
                    links,
                    key,
                ).contains_key(s) && sessions_beside(links, key)[s] == links[s]
            }),
        forall|id: Seq<char>| #[trigger]
            addressed(pending, key).contains_key(id) ==> pending.contains_key(id),
        forall|s: Seq<char>| #[trigger] sessions_of(links, key).contains_key(s) ==> links.contains_key(s),
{
}

/// What the passing of time left behind.
#[derive(Debug, PartialEq, Eq)]
pub struct Swept {
    /// The requests that timed out, the connections that fell silent and
    /// the requests that went to them.
    pub tick: Tick,
    /// The tunnel sessions of the connections that fell silent.
    pub cut: Vec<LinkPair>,
    /// The tunnel sessions on which nothing moved for too long.
    pub idle: Vec<LinkPair>,
}

fn keys_of(conns: &Vec<AgentConnection>) -> (keys: Vec<String>)
    ensures
        forall|k: Seq<char>| texts(keys@).contains(k) <==> has_key(conns@, k),
{
    let mut keys: Vec<String> = Vec::new();
    let mut i: usize = 0;
    while i < conns.len()
        invariant
            i <= conns@.len(),
            keys@.len() == i,
            forall|j: int| 0 <= j < i ==> #[trigger] keys@[j]@ == conns@[j].key(),
        decreases conns@.len() - i,
    {
        keys.push(conns[i].key.clone());
        i = i + 1;
    }
    proof {
        assert forall|k: Seq<char>| texts(keys@).contains(k) <==> has_key(conns@, k) by {
            if texts(keys@).contains(k) {
                let j = choose|j: int| 0 <= j < texts(keys@).len() && texts(keys@)[j] == k;
                assert(keys@[j]@ == conns@[j].key());
            }
            if has_key(conns@, k) {
                let j = index_of(conns@, k);
                assert(keys@[j]@ == conns@[j].key());
                assert(texts(keys@)[j] == k);
            }
        }
    }
    keys
}

/// Lets time pass for the relay and the tunnels: requests time out, silent
/// connections are closed with their requests and their tunnel sessions,
/// and idle sessions are closed.
pub fn sweep(relay: &mut Relay, tunnels: &mut TunnelManager, now: u64) -> (s: Swept)
    requires
        old(relay).wf(),
        old(tunnels).wf(),
    ensures
        final(relay).wf(),
        final(relay).config() == old(relay).config(),
        lists(s.tick.timed_out@, expired(old(relay).pending(), now)),
        final(relay).connections() == heard_conns(
            old(relay).connections(),
            now,
            old(relay).config(),
        ),
        lists_conns(
            s.tick.closed@,
            silent_conns(old(relay).connections(), now, old(relay).config()),
        ),
        final(relay).pending() == spared(
            after_expiry(old(relay).pending(), now),
            silent_conns(old(relay).connections(), now, old(relay).config()).dom(),
        ),
        lists(
            s.tick.failed@,
            orphaned(
                after_expiry(old(relay).pending(), now),
                silent_conns(old(relay).connections(), now, old(relay).config()).dom(),
            ),
        ),
        final(tunnels).wf(),
        final(tunnels).capacity() == old(tunnels).capacity(),
        final(tunnels).idle_timeout() == old(tunnels).idle_timeout(),
        lists_links(
            s.cut@,
            sessions_among(
                old(tunnels).sessions(),
                silent_conns(old(relay).connections(), now, old(relay).config()).dom(),
            ),
        ),
        lists_links(
            s.idle@,
            idle_sessions(
                sessions_outside(
                    old(tunnels).sessions(),
                    silent_conns(old(relay).connections(), now, old(relay).config()).dom(),
                ),
                now,
                old(tunnels).idle_timeout(),
            ),
        ),
        final(tunnels).sessions() == busy_sessions(
            sessions_outside(
                old(tunnels).sessions(),
                silent_conns(old(relay).connections(), now, old(relay).config()).dom(),
            ),
            now,
            old(tunnels).idle_timeout(),
        ),
{
    let tick = relay.tick(now);
    let keys = keys_of(&tick.closed);
    proof {
        let gone = silent_conns(old(relay).connections(), now, old(relay).config());
        assert(texts(keys@).to_set() =~= gone.dom()) by {
            assert forall|k: Seq<char>| texts(keys@).to_set().contains(k) <==> gone.dom().contains(
                k,
            ) by {
                assert(as_map(tick.closed@).contains_key(k) <==> has_key(tick.closed@, k));
                assert(crate::relay::conn_infos(as_map(tick.closed@)).contains_key(k) <==> as_map(
                    tick.closed@,
                ).contains_key(k));
            }
        }
    }
    let cut = tunnels.close_agents(keys);
    let idle = tunnels.sweep(now);
    Swept { tick, cut, idle }
}

/// The envelope that carries a tunnel step for `session` under `corr_id`.
pub open spec fn tunnel_envelope(corr_id: Seq<char>, session: Seq<char>, op: TunnelOp) -> EnvelopeView {
    EnvelopeView { corr_id, payload: PayloadView::Tunnel { session, op } }
}

/// The envelope that carries bytes of `session`. It asks for no answer, and
/// its correlation identifier is the session's.
pub open spec fn data_envelope(session: Seq<char>, chunk: Seq<u8>) -> EnvelopeView {
    EnvelopeView { corr_id: session, payload: PayloadView::TunnelData { session, chunk } }
}

/// Why a tunnel was not opened.
#[derive(Debug, Clone, Copy, PartialEq, Eq, Structural)]
pub enum OpenError {
    /// A session with this identifier exists already.
    DuplicateSession,
    /// The agent has no live connection.
    UnreachableTarget,
    /// A request with this correlation identifier still waits.
    DuplicateCorrelation,
}

/// Opens a tunnel toward the agent under `target`: the pair is created and
/// the agent is asked, by a request under `corr_id`, to open its end. The
/// pair is open once the agent's acknowledgement has come in. When the
/// request cannot be sent, no pair is left behind.
pub fn open_tunnel_with(
    relay: &mut Relay,
    tunnels: &mut TunnelManager,
    session: &str,
    corr_id: &str,
    target: &str,
    now: u64,
) -> (r: Result<Delivery, OpenError>)
    requires
        old(relay).wf(),
        old(tunnels).wf(),
    ensures
        final(relay).wf(),
        final(relay).config() == old(relay).config(),
        final(relay).connections() == old(relay).connections(),
        final(tunnels).wf(),
        final(tunnels).capacity() == old(tunnels).capacity(),
        final(tunnels).idle_timeout() == old(tunnels).idle_timeout(),
        match r {
            Err(OpenError::DuplicateSession) => old(tunnels).sessions().contains_key(session@)
                && final(tunnels).sessions() == old(tunnels).sessions() && final(relay).pending()
                == old(relay).pending(),
            Err(OpenError::UnreachableTarget) => !old(tunnels).sessions().contains_key(session@)
                && !reachable(old(relay).connections(), target@, now, old(relay).config())
                && final(tunnels).sessions() == old(tunnels).sessions() && final(relay).pending()
                == old(relay).pending(),
            Err(OpenError::DuplicateCorrelation) => !old(tunnels).sessions().contains_key(
                session@,
            ) && reachable(old(relay).connections(), target@, now, old(relay).config())
                && old(relay).pending().contains_key(corr_id@) && final(tunnels).sessions()
                == old(tunnels).sessions() && final(relay).pending() == old(relay).pending(),
            Ok(d) => !old(tunnels).sessions().contains_key(session@) && final(tunnels).sessions() == old(tunnels).sessions().insert(session@, opening(target@, now))
                && send_outcome(
                old(relay).connections(),
                old(relay).pending(),
                final(relay).pending(),
                old(relay).config(),
                target@,
                tunnel_envelope(corr_id@, session@, TunnelOp::Open),
                now,
                Ok::<Delivery, SendError>(d),
            ),
        },
{
    match tunnels.open(session, target, now) {
        Err(_) => {
            return Err(OpenError::DuplicateSession);
        },
        Ok(_) => {},
    }
    let e = Envelope::new(
        corr_id,
        Payload::Tunnel { session: String::from_str(session), op: TunnelOp::Open },
    );
    match relay.send(target, &e, now) {
        Ok(d) => Ok(d),
        Err(err) => {
            let _ = tunnels.close(session);
            assert(tunnels.sessions() =~= old(tunnels).sessions());
            match err {
                SendError::UnreachableTarget => Err(OpenError::UnreachableTarget),
                SendError::DuplicateCorrelation => Err(OpenError::DuplicateCorrelation),
            }
        },
    }
}

/// A tunnel that is being opened.
#[derive(Debug, PartialEq, Eq)]
pub struct Opened {
    /// The session identifier: a session handle for the caller.
    pub session: String,
    /// The correlation identifier of the request to the agent.
    pub corr_id: String,
    pub delivery: Delivery,
}

/// Opens a tunnel toward the agent under `target` with a fresh session
/// identifier and a fresh correlation identifier. Both are random: should
/// one be in use, the tunnel is refused as a duplicate and nothing changes.
/// Where no session tagged `tunnel` exists and no request tagged `open`
/// waits, a reachable agent always gets the request, and an unreachable one
/// is always reported as unreachable.
pub fn open_tunnel(relay: &mut Relay, tunnels: &mut TunnelManager, target: &str, now: u64) -> (r:
    Result<Opened, OpenError>)
    requires
        old(relay).wf(),
        old(tunnels).wf(),
    ensures
        final(relay).wf(),
        final(relay).config() == old(relay).config(),
        final(relay).connections() == old(relay).connections(),
        final(tunnels).wf(),
        final(tunnels).capacity() == old(tunnels).capacity(),
        final(tunnels).idle_timeout() == old(tunnels).idle_timeout(),
        r is Err ==> final(tunnels).sessions() == old(tunnels).sessions() && final(relay).pending() == old(relay).pending(),
        (r is Err && r->Err_0 == OpenError::UnreachableTarget) ==> !reachable(
            old(relay).connections(),
            target@,
            now,
            old(relay).config(),
        ),
        (r is Err && r->Err_0 == OpenError::DuplicateSession) ==> holds_tagged(
            old(tunnels).sessions(),
            "tunnel"@,
        ),
        (r is Err && r->Err_0 == OpenError::DuplicateCorrelation) ==> reachable(
            old(relay).connections(),
            target@,
            now,
            old(relay).config(),
        ) && holds_tagged(old(relay).pending(), "open"@),
        !reachable(old(relay).connections(), target@, now, old(relay).config()) ==> r is Err
            && r->Err_0 != OpenError::DuplicateCorrelation,
        !reachable(old(relay).connections(), target@, now, old(relay).config()) && !holds_tagged(
            old(tunnels).sessions(),
            "tunnel"@,
        ) ==> r is Err && r->Err_0 == OpenError::UnreachableTarget,
        reachable(old(relay).connections(), target@, now, old(relay).config()) && !holds_tagged(
            old(tunnels).sessions(),
            "tunnel"@,
        ) && !holds_tagged(old(relay).pending(), "open"@) ==> r is Ok,
        r matches Ok(o) ==> has_tag(o.session@, "tunnel"@) && has_tag(o.corr_id@, "open"@)
            && !old(tunnels).sessions().contains_key(o.session@) && final(tunnels).sessions()
            == old(tunnels).sessions().insert(o.session@, opening(target@, now)) && send_outcome(
            old(relay).connections(),
            old(relay).pending(),
            final(relay).pending(),
            old(relay).config(),
            target@,
            tunnel_envelope(o.corr_id@, o.session@, TunnelOp::Open),
            now,
            Ok::<Delivery, SendError>(o.delivery),
        ),
{
    let session = get_nanid("tunnel");
    let corr_id = get_nanid("open");
    assert(has_tag(session@, "tunnel"@));
    assert(has_tag(corr_id@, "open"@));
    match open_tunnel_with(relay, tunnels, session.as_str(), corr_id.as_str(), target, now) {
        Ok(delivery) => Ok(Opened { session, corr_id, delivery }),
        Err(e) => Err(e),
    }
}

/// What an inbound message did to the tunnels.
#[derive(Debug, PartialEq, Eq)]
pub enum TunnelEffect {
    /// Nothing.
    Nothing,
    /// The agent acknowledged a session, which is now open.
    Acknowledged,
    /// This many bytes of the agent's chunk were accepted toward the
    /// client; the rest has to be offered again.
    Wrote(usize),
    /// The agent closed a session.
    Closed(LinkPair),
    /// The sender's connection was ended, and with it these sessions.
    Cut(Vec<LinkPair>),
}

/// The session exists and belongs to the agent under `key`.
pub open spec fn owned(links: Map<Seq<char>, LinkInfo>, session: Seq<char>, key: Seq<char>) -> bool {
    links.contains_key(session) && links[session].agent == key
}

/// What the message `inb` from the agent under `key` does to the tunnels.
///
/// Bytes that are no envelope end the sender's sessions with its
/// connection. The agent's acknowledgement of a session of its own opens
/// that session. A chunk for an open session of its own is written at the
/// agent's end. The closing of a session of its own closes that session.
/// Nothing else touches the tunnels.
pub open spec fn routed(
    inb: Inbound,
    eff: TunnelEffect,
    key: Seq<char>,
    s0: Map<Seq<char>, LinkInfo>,
    s1: Map<Seq<char>, LinkInfo>,
    cap: nat,
    now: u64,
) -> bool {
    match inb {
        Inbound::Rejected { error, dropped } => eff matches TunnelEffect::Cut(v) && s1
            == sessions_beside(s0, key) && lists_links(v@, sessions_of(s0, key)),
        Inbound::Resolved { envelope } => match envelope@.payload {
            PayloadView::Tunnel { session, op } => if owned(s0, session, key) {
                eff is Acknowledged && s1 == s0.insert(session, acknowledged(s0[session], now))
            } else {
                eff is Nothing && s1 == s0
            },
            _ => eff is Nothing && s1 == s0,
        },
        Inbound::Passed { envelope } => match envelope@.payload {
            PayloadView::TunnelData { session, chunk } => if owned(s0, session, key)
                && s0[session].state == LinkState::Open {
                eff matches TunnelEffect::Wrote(n) && n == accepted(
                    s0[session].to_client,
                    chunk,
                    cap,
                ) && s1 == s0.insert(
                    session,
                    with_outbound(
                        s0[session],
                        End::Agent,
                        after_write(s0[session].to_client, chunk, cap),
                        now,
                    ),
                )
            } else {
                eff is Nothing && s1 == s0
            },
            PayloadView::Tunnel { session, op } => if op == TunnelOp::Close && owned(
                s0,
                session,
                key,
            ) {
                eff matches TunnelEffect::Closed(p) && p.info() == s0[session] && p.session@
                    == session && s1 == s0.remove(session)
            } else {
                eff is Nothing && s1 == s0
            },
            _ => eff is Nothing && s1 == s0,
        },
        _ => eff is Nothing && s1 == s0,
    }
}

fn owns(tunnels: &TunnelManager, session: &str, key: &str) -> (r: Option<LinkState>)
    requires
        tunnels.wf(),
    ensures
        match r {
            Some(st) => owned(tunnels.sessions(), session@, key@)
                && tunnels.sessions()[session@].state == st,
            None => !owned(tunnels.sessions(), session@, key@),
        },
{
    match tunnels.lookup(session) {
        Some((agent, state)) => if crate::text::str_eq(agent.as_str(), key) {
            Some(state)
        } else {
            None
        },
        None => None,
    }
}

/// Takes in the bytes that arrived from the connection under `key`: the
/// relay deals with them first, then the tunnels with what concerns them.
pub fn route(relay: &mut Relay, tunnels: &mut TunnelManager, key: &str, bytes: &[u8], now: u64) -> (r:
    (Inbound, TunnelEffect))
    requires
        old(relay).wf(),
        old(tunnels).wf(),
    ensures
        final(relay).wf(),
        final(relay).config() == old(relay).config(),
        final(tunnels).wf(),
        final(tunnels).capacity() == old(tunnels).capacity(),
        final(tunnels).idle_timeout() == old(tunnels).idle_timeout(),
        crate::relay::received(
            old(relay).connections(),
            old(relay).pending(),
            final(relay).connections(),
            final(relay).pending(),
            key@,
            bytes@,
            now,
            r.0,
        ),
        routed(
            r.0,
            r.1,
            key@,
            old(tunnels).sessions(),
            final(tunnels).sessions(),
            old(tunnels).capacity(),
            now,
        ),
{
    let inb = relay.on_message(key, bytes, now);
    let eff = match &inb {
        Inbound::Rejected { error: _, dropped: _ } => TunnelEffect::Cut(tunnels.close_agent(key)),
        Inbound::Resolved { envelope } => match &envelope.payload {
            Payload::Tunnel { session, op: _ } => match owns(tunnels, session.as_str(), key) {
                Some(_) => {
                    let _ = tunnels.acknowledge(session.as_str(), now);
                    TunnelEffect::Acknowledged
                },
                None => TunnelEffect::Nothing,
            },
            _ => TunnelEffect::Nothing,
        },
        Inbound::Passed { envelope } => match &envelope.payload {
            Payload::TunnelData { session, chunk } => match owns(tunnels, session.as_str(), key) {
                Some(LinkState::Open) => match tunnels.write(
                    session.as_str(),
                    End::Agent,
                    chunk.as_slice(),
                    now,
                ) {
                    Ok(n) => TunnelEffect::Wrote(n),
                    Err(_) => TunnelEffect::Nothing,
                },
                _ => TunnelEffect::Nothing,
            },
            Payload::Tunnel { session, op } => match op {
                TunnelOp::Close => match owns(tunnels, session.as_str(), key) {
                    Some(_) => match tunnels.close(session.as_str()) {
                        Some(p) => TunnelEffect::Closed(p),
                        None => TunnelEffect::Nothing,
                    },
                    None => TunnelEffect::Nothing,
                },
                _ => TunnelEffect::Nothing,
            },
            _ => TunnelEffect::Nothing,
        },
        _ => TunnelEffect::Nothing,
    };
    (inb, eff)
}

/// Why no bytes were forwarded to the agent.
#[derive(Debug, Clone, Copy, PartialEq, Eq, Structural)]
pub enum ForwardError {
    /// No such session: it was never opened, or it is closed.
    Closed,
    /// The agent has not acknowledged the session yet.
    NotOpen,
    /// The agent's connection is gone: the session was closed.
    UnreachableTarget,
}

/// Forwards up to `max` of the bytes that the client wrote on `session` to
/// the agent, as one chunk, in the order written. When the agent has no
/// live connection the session is closed instead, and no byte is taken.
pub fn forward(relay: &mut Relay, tunnels: &mut TunnelManager, session: &str, max: usize, now: u64) -> (r:
    Result<Delivery, ForwardError>)
    requires
        old(relay).wf(),
        old(tunnels).wf(),
    ensures
        final(relay).wf(),
        final(relay).config() == old(relay).config(),
        final(relay).connections() == old(relay).connections(),
        final(relay).pending() == old(relay).pending(),
        final(tunnels).wf(),
        final(tunnels).capacity() == old(tunnels).capacity(),
        final(tunnels).idle_timeout() == old(tunnels).idle_timeout(),
        match r {
            Err(ForwardError::Closed) => !old(tunnels).sessions().contains_key(session@) && final(tunnels).sessions() == old(tunnels).sessions(),
            Err(ForwardError::NotOpen) => old(tunnels).sessions().contains_key(session@) && old(tunnels).sessions()[session@].state != LinkState::Open && final(tunnels).sessions() == old(tunnels).sessions(),
            Err(ForwardError::UnreachableTarget) => old(tunnels).sessions().contains_key(session@)
                && old(tunnels).sessions()[session@].state == LinkState::Open && !reachable(
                old(relay).connections(),
                old(tunnels).sessions()[session@].agent,
                now,
                old(relay).config(),
            ) && final(tunnels).sessions() == old(tunnels).sessions().remove(session@),
            Ok(d) => old(tunnels).sessions().contains_key(session@) && old(tunnels).sessions()[session@].state == LinkState::Open && reachable(
                old(relay).connections(),
                old(tunnels).sessions()[session@].agent,
                now,
                old(relay).config(),
            ) && d.conn_id == old(relay).connections()[old(tunnels).sessions()[session@].agent].conn_id && d.bytes@ == wire(
                data_envelope(
                    session@,
                    taken(old(tunnels).sessions()[session@].to_agent, max as nat),
                ),
            ) && final(tunnels).sessions() == old(tunnels).sessions().insert(
                session@,
                with_outbound(
                    old(tunnels).sessions()[session@],
                    End::Client,
                    after_read(old(tunnels).sessions()[session@].to_agent, max as nat),
                    now,
                ),
            ),
        },
{
    let (agent, state) = match tunnels.lookup(session) {
        Some(p) => p,
        None => {
            return Err(ForwardError::Closed);
        },
    };
    match state {
        LinkState::Open => {},
        LinkState::Opening => {
            return Err(ForwardError::NotOpen);
        },
    }
    if !relay.is_reachable(agent.as_str(), now) {
        let _ = tunnels.close(session);
        return Err(ForwardError::UnreachableTarget);
    }
    let chunk = match tunnels.read(session, End::Agent, max, now) {
        Ok(c) => c,
        Err(_) => {
            return Err(ForwardError::Closed);
        },
    };
    let e = Envelope::new(
        session,
        Payload::TunnelData { session: String::from_str(session), chunk },
    );
    match relay.send(agent.as_str(), &e, now) {
        Ok(d) => Ok(d),
        Err(_) => Err(ForwardError::UnreachableTarget),
    }
}

/// The envelope that asks for the file operation `request` under `corr_id`.
pub open spec fn file_envelope(corr_id: Seq<char>, request: SftpRequestView) -> EnvelopeView {
    EnvelopeView { corr_id, payload: PayloadView::File(request) }
}

/// Asks the agent under `target` for a file operation, as a request with
/// the correlation identifier `corr_id`. The relay does not repeat it.
pub fn file_request_with(
    relay: &mut Relay,
    target: &str,
    corr_id: &str,
    request: SftpRequest,
    now: u64,
) -> (r: Result<Delivery, SendError>)
    requires
        old(relay).wf(),
    ensures
        final(relay).wf(),
        final(relay).config() == old(relay).config(),
        final(relay).connections() == old(relay).connections(),
        send_outcome(
            old(relay).connections(),
            old(relay).pending(),
            final(relay).pending(),
            old(relay).config(),
            target@,
            file_envelope(corr_id@, request@),
            now,
            r,
        ),
{
    let e = Envelope::new(corr_id, Payload::File(request));
    relay.send(target, &e, now)
}

/// Asks the agent under `target` for a file operation, as a request with a
/// fresh correlation identifier that starts with `sftp`.
///
/// The target is unreachable exactly when it has no live connection. The
/// identifier is random: should it be one that still waits, the request is
/// refused as a duplicate and nothing changes. Where no identifier with the
/// tag waits, a reachable target always gets the request.
pub fn file_request(relay: &mut Relay, target: &str, request: SftpRequest, now: u64) -> (r: Result<
    Dispatched,
    SendError,
>)
    requires
        old(relay).wf(),
    ensures
        final(relay).wf(),
        final(relay).config() == old(relay).config(),
        final(relay).connections() == old(relay).connections(),
        (r is Err && r->Err_0 == SendError::UnreachableTarget) <==> !reachable(
            old(relay).connections(),
            target@,
            now,
            old(relay).config(),
        ),
        r is Err ==> final(relay).pending() == old(relay).pending(),
        (r is Err && r->Err_0 == SendError::DuplicateCorrelation) ==> holds_tagged(
            old(relay).pending(),
            "sftp"@,
        ),
        reachable(old(relay).connections(), target@, now, old(relay).config()) && !holds_tagged(
            old(relay).pending(),
            "sftp"@,
        ) ==> r is Ok,
        r matches Ok(d) ==> has_tag(d.corr_id@, "sftp"@) && send_outcome(
            old(relay).connections(),
            old(relay).pending(),
            final(relay).pending(),
            old(relay).config(),
            target@,
            file_envelope(d.corr_id@, request@),
            now,
            Ok::<Delivery, SendError>(d.delivery),
        ),
{
    let corr_id = get_nanid("sftp");
    assert(has_tag(corr_id@, "sftp"@));
    match file_request_with(relay, target, corr_id.as_str(), request, now) {
        Ok(delivery) => Ok(Dispatched { corr_id, delivery }),
        Err(e) => Err(e),
    }
}

/// How a request ended.
#[derive(Debug, PartialEq, Eq)]
pub enum Resolution {
    /// The agent answered.
    Reply(Envelope),
    /// The deadline came first.
    TimedOut,
    /// The agent's connection ended first.
    Dropped,
    /// The request was never sent.
    Refused(SendError),
}

/// What the caller of a request is told: the result, or one kind of
/// failure with the agent's message, if it sent one.
#[derive(Debug, PartialEq, Eq)]
pub enum CallOutcome {
    Success { body: Vec<u8> },
    Failed { kind: ErrorKind, message: String },
}

/// What the caller is told of a request that ended as `r`.
///
/// A response gives its body, an acknowledgement an empty one. A failure
/// from the agent is passed on as it is. A timeout is told apart from an
/// unreachable target: the first was delivered and not answered, the second
/// never delivered. Anything else is a fault of the protocol.
pub fn settle(r: Resolution) -> (o: CallOutcome)
    ensures
        match r {
            Resolution::Reply(e) => match e.payload {
                Payload::Response { body } => o == (CallOutcome::Success { body }),
                Payload::Failure { kind, message } => o == (CallOutcome::Failed { kind, message }),
                Payload::Tunnel { session, op } => if op == TunnelOp::Ack {
                    o matches CallOutcome::Success { body } && body@.len() == 0
                } else {
                    o matches CallOutcome::Failed { kind, message } && kind == ErrorKind::Protocol
                        && message@.len() == 0
                },
                _ => o matches CallOutcome::Failed { kind, message } && kind == ErrorKind::Protocol
                    && message@.len() == 0,
            },
            Resolution::TimedOut => o matches CallOutcome::Failed { kind, message } && kind
                == ErrorKind::Timeout && message@.len() == 0,
            Resolution::Dropped => o matches CallOutcome::Failed { kind, message } && kind
                == ErrorKind::UnreachableTarget && message@.len() == 0,
            Resolution::Refused(err) => o matches CallOutcome::Failed { kind, message }
                && message@.len() == 0 && kind == (match err {
                SendError::UnreachableTarget => ErrorKind::UnreachableTarget,
                SendError::DuplicateCorrelation => ErrorKind::Protocol,
            }),
        },
{
    match r {
        Resolution::Reply(e) => match e.payload {
            Payload::Response { body } => CallOutcome::Success { body },
            Payload::Failure { kind, message } => CallOutcome::Failed { kind, message },
            Payload::Tunnel { session: _, op } => match op {
                TunnelOp::Ack => CallOutcome::Success { body: Vec::new() },
                _ => CallOutcome::Failed { kind: ErrorKind::Protocol, message: String::new() },
            },
            _ => CallOutcome::Failed { kind: ErrorKind::Protocol, message: String::new() },
        },
        Resolution::TimedOut => CallOutcome::Failed {
            kind: ErrorKind::Timeout,
            message: String::new(),
        },
        Resolution::Dropped => CallOutcome::Failed {
            kind: ErrorKind::UnreachableTarget,
            message: String::new(),
        },
        Resolution::Refused(err) => CallOutcome::Failed {
            kind: match err {
                SendError::UnreachableTarget => ErrorKind::UnreachableTarget,
                SendError::DuplicateCorrelation => ErrorKind::Protocol,
            },
            message: String::new(),
        },
    }
}

} // verus!
