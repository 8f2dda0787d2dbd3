use automate::bridge::{
    disconnect_agent, dispatch, dispatch_with, file_request, file_request_with, fire, forward,
    open_tunnel, open_tunnel_with, route, run_due, settle, sweep, CallOutcome, ForwardError,
    OpenError, Resolution, TunnelEffect,
};
use automate::bus::Bus;
use automate::frame::DecodeError;
use automate::protocol::{
    decode, encode, Envelope, ErrorKind, JobAction, Payload, SftpRequest, TunnelOp,
};
use automate::relay::{Inbound, Relay, RelayConfig, SendError};
use automate::scheduler::{BaseJob, Scheduled, Scheduler, Trigger};
use automate::tunnel::{End, LinkState, TunnelManager};

fn relay() -> Relay {
    Relay::new(RelayConfig { heartbeat_interval: 10, max_missed: 3, request_timeout: 30 }).unwrap()
}

fn action() -> JobAction {
    JobAction::Run { command: String::from("backup.sh"), timeout_secs: 60 }
}

fn job(id: &str, trigger: Trigger, targets: &[&str]) -> BaseJob {
    BaseJob {
        id: String::from(id),
        trigger,
        targets: targets.iter().map(|t| String::from(*t)).collect(),
        action: action(),
    }
}

#[test]
fn dispatch_with_sends_the_action_as_a_request() {
    let mut r = relay();
    r.register("R1", 1, 0);
    let d = dispatch_with(&mut r, "R1", "c-1", &action(), 5).unwrap();
    assert_eq!(d.conn_id, 1);
    assert_eq!(decode(&d.bytes), Ok(Envelope::new("c-1", Payload::Job(action()))));
    assert_eq!(r.waiting("c-1"), Some((String::from("R1"), 35)));
}

#[test]
fn dispatch_with_reports_unreachable_and_duplicate() {
    let mut r = relay();
    assert_eq!(dispatch_with(&mut r, "R1", "c-1", &action(), 5), Err(SendError::UnreachableTarget));
    r.register("R1", 1, 0);
    assert!(dispatch_with(&mut r, "R1", "c-1", &action(), 5).is_ok());
    assert_eq!(
        dispatch_with(&mut r, "R1", "c-1", &action(), 6),
        Err(SendError::DuplicateCorrelation)
    );
}

#[test]
fn dispatch_uses_a_fresh_tagged_id() {
    let mut r = relay();
    r.register("R1", 1, 0);
    let a = dispatch(&mut r, "R1", "job", &action(), 5).unwrap();
    let b = dispatch(&mut r, "R1", "job", &action(), 5).unwrap();
    assert!(a.corr_id.starts_with("job-"));
    assert_eq!(a.corr_id.len(), 14);
    assert_ne!(a.corr_id, b.corr_id);
    assert_eq!(r.waiting(&a.corr_id), Some((String::from("R1"), 35)));
    assert_eq!(r.pending_len(), 2);
    assert_eq!(
        decode(&a.delivery.bytes),
        Ok(Envelope::new(&a.corr_id, Payload::Job(action())))
    );
}

#[test]
fn dispatch_to_unreachable_target_returns_at_once() {
    let mut r = relay();
    assert_eq!(dispatch(&mut r, "R1", "job", &action(), 5), Err(SendError::UnreachableTarget));
    r.register("R1", 1, 0);
    assert_eq!(dispatch(&mut r, "R1", "job", &action(), 30), Err(SendError::UnreachableTarget));
    assert_eq!(r.pending_len(), 0);
}

#[test]
fn fire_sends_to_each_target_and_fails_only_the_unreachable() {
    let mut r = relay();
    r.register("R1", 1, 0);
    r.register("R3", 3, 0);
    let s = Scheduled {
        job: job("J", Trigger::OneShot { at: 5 }, &["R1", "R2", "R3"]),
        due: 5,
        runs: 0,
    };
    let out = fire(&mut r, &s, "job", 5);
    assert_eq!(out.len(), 3);
    assert_eq!(out[0].target, "R1");
    assert_eq!(out[1].target, "R2");
    assert_eq!(out[2].target, "R3");
    assert!(out.iter().all(|o| o.job_id == "J" && o.due == 5));
    assert_eq!(out[0].outcome.as_ref().unwrap().delivery.conn_id, 1);
    assert_eq!(out[1].outcome, Err(SendError::UnreachableTarget));
    assert_eq!(out[2].outcome.as_ref().unwrap().delivery.conn_id, 3);
    assert_eq!(r.pending_len(), 2);
}

#[test]
fn interval_job_keeps_its_schedule_through_a_disconnect() {
    let mut sched = Scheduler::new();
    let mut r = relay();
    let mut tunnels = TunnelManager::new(64, 600).unwrap();
    sched.insert(job("J1", Trigger::Interval { start: 0, every: 5 }, &["R1"]), 0).unwrap();
    r.register("R1", 1, 0);

    let mut log: Vec<(u64, bool)> = Vec::new();
    for now in 0..=16u64 {
        if now == 7 {
            let d = disconnect_agent(&mut r, &mut tunnels, "R1");
            assert_eq!(d.dropped.conn_id, Some(1));
            assert_eq!(d.dropped.failed.len(), 2);
        }
        if now == 12 {
            r.register("R1", 2, 12);
        }
        let round = run_due(&mut sched, &mut r, "job", now);
        assert_eq!(round.fired.len(), round.occurrences.len());
        for o in round.occurrences.into_iter().flatten() {
            assert_eq!(o.job_id, "J1");
            assert_eq!(o.target, "R1");
            assert_eq!(o.due, now);
            log.push((now, o.outcome.is_ok()));
            if now == 10 {
                assert_eq!(o.outcome, Err(SendError::UnreachableTarget));
            }
        }
    }
    assert_eq!(log, vec![(0, true), (5, true), (10, false), (15, true)]);
    assert_eq!(sched.waiting("J1"), Some((20, 4)));
}

#[test]
fn schedule_continues_while_the_target_stays_away() {
    let mut sched = Scheduler::new();
    let mut r = relay();
    sched.insert(job("J1", Trigger::Interval { start: 0, every: 5 }, &["R1"]), 0).unwrap();
    let mut fires = Vec::new();
    for now in 0..=15u64 {
        for o in run_due(&mut sched, &mut r, "job", now).occurrences.into_iter().flatten() {
            assert_eq!(o.outcome, Err(SendError::UnreachableTarget));
            fires.push(now);
        }
    }
    assert_eq!(fires, vec![0, 5, 10, 15]);
}

#[test]
fn run_due_covers_every_due_job_and_target() {
    let mut sched = Scheduler::new();
    let mut r = relay();
    r.register("R1", 1, 0);
    r.register("R2", 2, 0);
    sched.insert(job("A", Trigger::OneShot { at: 1 }, &["R1", "R2"]), 0).unwrap();
    sched.insert(job("B", Trigger::OneShot { at: 2 }, &["R2"]), 0).unwrap();
    sched.insert(job("C", Trigger::OneShot { at: 9 }, &["R1"]), 0).unwrap();
    sched.insert(job("D", Trigger::OneShot { at: 2 }, &[]), 0).unwrap();
    let round = run_due(&mut sched, &mut r, "job", 2);
    assert_eq!(round.fired.len(), 3);
    for (job, occs) in round.fired.iter().zip(round.occurrences.iter()) {
        assert_eq!(job.job.targets.len(), occs.len());
        for (target, o) in job.job.targets.iter().zip(occs.iter()) {
            assert_eq!(&o.target, target);
            assert_eq!(o.job_id, job.job.id);
            assert_eq!(o.due, job.due);
        }
    }
    let out: Vec<_> = round.occurrences.into_iter().flatten().collect();
    let mut pairs: Vec<(String, String)> =
        out.iter().map(|o| (o.job_id.clone(), o.target.clone())).collect();
    pairs.sort();
    assert_eq!(
        pairs,
        vec![
            (String::from("A"), String::from("R1")),
            (String::from("A"), String::from("R2")),
            (String::from("B"), String::from("R2")),
        ]
    );
    assert!(out.iter().all(|o| o.outcome.is_ok()));
    assert_eq!(sched.len(), 1);
    assert_eq!(r.pending_len(), 3);
}

#[test]
fn disconnect_fails_requests_and_closes_sessions_of_that_agent_only() {
    let mut r = relay();
    let mut tunnels = TunnelManager::new(64, 600).unwrap();
    r.register("A", 1, 0);
    r.register("B", 2, 0);
    for id in ["a1", "a2", "a3"] {
        dispatch_with(&mut r, "A", id, &action(), 1).unwrap();
    }
    for id in ["b1", "b2"] {
        dispatch_with(&mut r, "B", id, &action(), 1).unwrap();
    }
    for s in ["sa1", "sa2"] {
        tunnels.open(s, "A", 1).unwrap();
        tunnels.acknowledge(s, 1).unwrap();
    }
    tunnels.open("sb1", "B", 1).unwrap();
    tunnels.acknowledge("sb1", 1).unwrap();
    tunnels.write("sb1", End::Client, &[1, 2, 3], 2).unwrap();

    let d = disconnect_agent(&mut r, &mut tunnels, "A");
    assert_eq!(d.dropped.conn_id, Some(1));
    let failed: Vec<&str> = d.dropped.failed.iter().map(|p| p.corr_id.as_str()).collect();
    assert_eq!(failed, vec!["a1", "a2", "a3"]);
    let closed: Vec<&str> = d.sessions.iter().map(|p| p.session.as_str()).collect();
    assert_eq!(closed, vec!["sa1", "sa2"]);

    assert_eq!(r.connection("A"), None);
    assert_eq!(r.connection("B").unwrap().conn_id, 2);
    assert_eq!(r.waiting("b1"), Some((String::from("B"), 31)));
    assert_eq!(r.waiting("b2"), Some((String::from("B"), 31)));
    assert_eq!(r.pending_len(), 2);
    assert_eq!(tunnels.len(), 1);
    assert_eq!(tunnels.lookup("sb1"), Some((String::from("B"), LinkState::Open)));
    assert_eq!(tunnels.read("sb1", End::Agent, 10, 3), Ok(vec![1, 2, 3]));
}

#[test]
fn sweep_cuts_the_sessions_of_silent_agents_and_idle_sessions() {
    let mut r = relay();
    let mut tunnels = TunnelManager::new(64, 100).unwrap();
    r.register("quiet", 1, 0);
    r.register("alive", 2, 25);
    dispatch_with(&mut r, "quiet", "q1", &action(), 20).unwrap();
    dispatch_with(&mut r, "alive", "l1", &action(), 25).unwrap();
    tunnels.open("sq", "quiet", 0).unwrap();
    tunnels.open("sl", "alive", 25).unwrap();
    let s = sweep(&mut r, &mut tunnels, 30);
    assert!(s.tick.timed_out.is_empty());
    assert_eq!(s.tick.closed.len(), 1);
    assert_eq!(s.tick.closed[0].key, "quiet");
    assert_eq!(s.tick.failed.len(), 1);
    assert_eq!(s.tick.failed[0].corr_id, "q1");
    assert_eq!(s.cut.len(), 1);
    assert_eq!(s.cut[0].session, "sq");
    assert!(s.idle.is_empty());
    assert_eq!(tunnels.len(), 1);
    let s = sweep(&mut r, &mut tunnels, 125);
    assert_eq!(s.idle.len() + s.cut.len(), 1);
    assert_eq!(tunnels.len(), 0);
}

#[test]
fn tunnel_opens_on_the_agents_acknowledgement() {
    let mut r = relay();
    let mut tunnels = TunnelManager::new(64, 600).unwrap();
    r.register("A", 1, 0);
    let d = open_tunnel_with(&mut r, &mut tunnels, "s1", "c1", "A", 1).unwrap();
    assert_eq!(d.conn_id, 1);
    assert_eq!(
        decode(&d.bytes),
        Ok(Envelope::new("c1", Payload::Tunnel { session: String::from("s1"), op: TunnelOp::Open }))
    );
    assert_eq!(tunnels.lookup("s1"), Some((String::from("A"), LinkState::Opening)));
    assert_eq!(r.waiting("c1"), Some((String::from("A"), 31)));

    let ack = Envelope::new("c1", Payload::Tunnel { session: String::from("s1"), op: TunnelOp::Ack });
    let (inb, eff) = route(&mut r, &mut tunnels, "A", &encode(&ack), 2);
    assert!(matches!(inb, Inbound::Resolved { .. }));
    assert_eq!(eff, TunnelEffect::Acknowledged);
    assert_eq!(tunnels.lookup("s1"), Some((String::from("A"), LinkState::Open)));
    assert_eq!(r.pending_len(), 0);
}

#[test]
fn tunnel_is_not_left_behind_when_the_agent_is_unreachable() {
    let mut r = relay();
    let mut tunnels = TunnelManager::new(64, 600).unwrap();
    assert_eq!(
        open_tunnel_with(&mut r, &mut tunnels, "s1", "c1", "A", 1),
        Err(OpenError::UnreachableTarget)
    );
    assert_eq!(tunnels.len(), 0);
    r.register("A", 1, 0);
    dispatch_with(&mut r, "A", "c1", &action(), 1).unwrap();
    assert_eq!(
        open_tunnel_with(&mut r, &mut tunnels, "s1", "c1", "A", 1),
        Err(OpenError::DuplicateCorrelation)
    );
    assert_eq!(tunnels.len(), 0);
    assert!(open_tunnel_with(&mut r, &mut tunnels, "s1", "c2", "A", 1).is_ok());
    assert_eq!(
        open_tunnel_with(&mut r, &mut tunnels, "s1", "c3", "A", 1),
        Err(OpenError::DuplicateSession)
    );
    assert_eq!(tunnels.len(), 1);
    assert_eq!(r.pending_len(), 2);
}

#[test]
fn open_tunnel_picks_fresh_identifiers() {
    let mut r = relay();
    let mut tunnels = TunnelManager::new(64, 600).unwrap();
    assert_eq!(open_tunnel(&mut r, &mut tunnels, "A", 1), Err(OpenError::UnreachableTarget));
    r.register("A", 1, 0);
    let o = open_tunnel(&mut r, &mut tunnels, "A", 1).unwrap();
    assert!(o.session.starts_with("tunnel-"));
    assert!(o.corr_id.starts_with("open-"));
    assert_eq!(tunnels.lookup(&o.session), Some((String::from("A"), LinkState::Opening)));
    assert_eq!(r.waiting(&o.corr_id), Some((String::from("A"), 31)));
}

#[test]
fn bytes_flow_through_the_relay_in_both_directions() {
    let mut r = relay();
    let mut tunnels = TunnelManager::new(8, 600).unwrap();
    r.register("A", 1, 0);
    open_tunnel_with(&mut r, &mut tunnels, "s1", "c1", "A", 1).unwrap();
    let ack = Envelope::new("c1", Payload::Tunnel { session: String::from("s1"), op: TunnelOp::Ack });
    route(&mut r, &mut tunnels, "A", &encode(&ack), 2);

    assert_eq!(tunnels.write("s1", End::Client, b"whoami\n", 3), Ok(7));
    let d = forward(&mut r, &mut tunnels, "s1", 4, 4).unwrap();
    assert_eq!(d.conn_id, 1);
    assert_eq!(
        decode(&d.bytes),
        Ok(Envelope::new(
            "s1",
            Payload::TunnelData { session: String::from("s1"), chunk: b"whoa".to_vec() }
        ))
    );
    let d = forward(&mut r, &mut tunnels, "s1", 100, 5).unwrap();
    assert_eq!(
        decode(&d.bytes),
        Ok(Envelope::new(
            "s1",
            Payload::TunnelData { session: String::from("s1"), chunk: b"mi\n".to_vec() }
        ))
    );
    assert_eq!(r.pending_len(), 0);

    let reply = Envelope::new(
        "s1",
        Payload::TunnelData { session: String::from("s1"), chunk: b"root\nmore-output".to_vec() },
    );
    let (inb, eff) = route(&mut r, &mut tunnels, "A", &encode(&reply), 6);
    assert!(matches!(inb, Inbound::Passed { .. }));
    assert_eq!(eff, TunnelEffect::Wrote(8));
    assert_eq!(tunnels.read("s1", End::Client, 100, 7), Ok(b"root\nmor".to_vec()));
}

#[test]
fn route_ignores_sessions_of_other_agents() {
    let mut r = relay();
    let mut tunnels = TunnelManager::new(8, 600).unwrap();
    r.register("A", 1, 0);
    r.register("B", 2, 0);
    tunnels.open("s1", "A", 0).unwrap();
    tunnels.acknowledge("s1", 0).unwrap();
    let data =
        Envelope::new("s1", Payload::TunnelData { session: String::from("s1"), chunk: vec![1] });
    let (_, eff) = route(&mut r, &mut tunnels, "B", &encode(&data), 1);
    assert_eq!(eff, TunnelEffect::Nothing);
    assert_eq!(tunnels.buffered("s1", End::Client), Some(0));
    let close = Envelope::new("x", Payload::Tunnel { session: String::from("s1"), op: TunnelOp::Close });
    let (_, eff) = route(&mut r, &mut tunnels, "B", &encode(&close), 1);
    assert_eq!(eff, TunnelEffect::Nothing);
    assert_eq!(tunnels.len(), 1);
    let (_, eff) = route(&mut r, &mut tunnels, "A", &encode(&close), 1);
    assert!(matches!(eff, TunnelEffect::Closed(_)));
    assert_eq!(tunnels.len(), 0);
}

#[test]
fn route_cuts_the_sessions_of_a_sender_of_malformed_bytes() {
    let mut r = relay();
    let mut tunnels = TunnelManager::new(8, 600).unwrap();
    r.register("A", 1, 0);
    tunnels.open("s1", "A", 0).unwrap();
    let (inb, eff) = route(&mut r, &mut tunnels, "A", &[1, 2, 3], 1);
    match inb {
        Inbound::Rejected { error, dropped } => {
            assert_eq!(error, DecodeError::Truncated);
            assert_eq!(dropped.conn_id, Some(1));
        }
        other => panic!("unexpected {:?}", other),
    }
    match eff {
        TunnelEffect::Cut(v) => assert_eq!(v.len(), 1),
        other => panic!("unexpected {:?}", other),
    }
    assert_eq!(tunnels.len(), 0);
    assert_eq!(r.connection_count(), 0);
}

#[test]
fn route_passes_heartbeats_and_unknown_senders() {
    let mut r = relay();
    let mut tunnels = TunnelManager::new(8, 600).unwrap();
    let hb = encode(&Envelope::new("", Payload::Heartbeat));
    assert_eq!(route(&mut r, &mut tunnels, "A", &hb, 1), (Inbound::UnknownSender, TunnelEffect::Nothing));
    r.register("A", 1, 0);
    assert_eq!(route(&mut r, &mut tunnels, "A", &hb, 1), (Inbound::Heartbeat, TunnelEffect::Nothing));
}

#[test]
fn forward_closes_the_session_when_the_agent_is_gone() {
    let mut r = relay();
    let mut tunnels = TunnelManager::new(8, 600).unwrap();
    assert_eq!(forward(&mut r, &mut tunnels, "s1", 4, 1), Err(ForwardError::Closed));
    tunnels.open("s1", "A", 0).unwrap();
    assert_eq!(forward(&mut r, &mut tunnels, "s1", 4, 1), Err(ForwardError::NotOpen));
    tunnels.acknowledge("s1", 0).unwrap();
    tunnels.write("s1", End::Client, &[1, 2], 1).unwrap();
    assert_eq!(forward(&mut r, &mut tunnels, "s1", 4, 1), Err(ForwardError::UnreachableTarget));
    assert_eq!(tunnels.len(), 0);
    assert_eq!(forward(&mut r, &mut tunnels, "s1", 4, 1), Err(ForwardError::Closed));
}

#[test]
fn bus_publishes_to_the_subscriber_of_the_key() {
    let mut bus = Bus::new();
    let e = Envelope::new("c1", Payload::Job(action()));
    assert_eq!(bus.publish("R1", &e), None);
    assert_eq!(bus.subscribe("R1", 10), None);
    assert_eq!(bus.subscribe("R2", 20), None);
    let p = bus.publish("R1", &e).unwrap();
    assert_eq!(p.channel, "R1");
    assert_eq!(p.handler, 10);
    assert_eq!(p.bytes, encode(&e));
    assert_eq!(bus.publish("R2", &e).unwrap().handler, 20);
}

#[test]
fn bus_subscription_is_replaced_and_ended() {
    let mut bus = Bus::new();
    let e = Envelope::new("", Payload::Heartbeat);
    assert_eq!(bus.subscribe("R1", 10), None);
    assert_eq!(bus.subscribe("R1", 11), Some(10));
    assert_eq!(bus.publish("R1", &e).unwrap().handler, 11);
    assert_eq!(bus.unsubscribe("R1"), Some(11));
    assert_eq!(bus.unsubscribe("R1"), None);
    assert_eq!(bus.publish("R1", &e), None);
}

#[test]
fn file_request_is_sent_once_and_waits_for_its_answer() {
    let mut r = relay();
    assert_eq!(
        file_request_with(&mut r, "A", "f1", SftpRequest::ReadDir { path: String::from("/") }, 1),
        Err(SendError::UnreachableTarget)
    );
    r.register("A", 1, 0);
    let d = file_request_with(
        &mut r,
        "A",
        "f1",
        SftpRequest::Download { path: String::from("/a"), offset: 10, length: 20 },
        1,
    )
    .unwrap();
    assert_eq!(
        decode(&d.bytes),
        Ok(Envelope::new(
            "f1",
            Payload::File(SftpRequest::Download { path: String::from("/a"), offset: 10, length: 20 })
        ))
    );
    assert_eq!(r.waiting("f1"), Some((String::from("A"), 31)));
    let f = file_request(&mut r, "A", SftpRequest::Remove { path: String::from("/a") }, 2).unwrap();
    assert!(f.corr_id.starts_with("sftp-"));
    assert_eq!(r.pending_len(), 2);
}

#[test]
fn callers_are_told_one_of_four_things() {
    let req = Envelope::new("c", Payload::Job(action()));
    assert_eq!(
        settle(Resolution::Reply(req.respond(vec![1, 2]))),
        CallOutcome::Success { body: vec![1, 2] }
    );
    assert_eq!(
        settle(Resolution::Reply(req.fail(ErrorKind::Transfer, "disk full"))),
        CallOutcome::Failed { kind: ErrorKind::Transfer, message: String::from("disk full") }
    );
    assert_eq!(
        settle(Resolution::Reply(Envelope::new(
            "c",
            Payload::Tunnel { session: String::from("s"), op: TunnelOp::Ack }
        ))),
        CallOutcome::Success { body: vec![] }
    );
    assert_eq!(
        settle(Resolution::Reply(Envelope::new("c", Payload::Heartbeat))),
        CallOutcome::Failed { kind: ErrorKind::Protocol, message: String::new() }
    );
    assert_eq!(
        settle(Resolution::TimedOut),
        CallOutcome::Failed { kind: ErrorKind::Timeout, message: String::new() }
    );
    assert_eq!(
        settle(Resolution::Dropped),
        CallOutcome::Failed { kind: ErrorKind::UnreachableTarget, message: String::new() }
    );
    assert_eq!(
        settle(Resolution::Refused(SendError::UnreachableTarget)),
        CallOutcome::Failed { kind: ErrorKind::UnreachableTarget, message: String::new() }
    );
    assert_eq!(
        settle(Resolution::Refused(SendError::DuplicateCorrelation)),
        CallOutcome::Failed { kind: ErrorKind::Protocol, message: String::new() }
    );
}

#[test]
fn fire_sends_the_jobs_own_action_under_a_fresh_id() {
    let mut r = relay();
    r.register("R1", 11, 0);
    r.register("R2", 22, 0);
    dispatch_with(&mut r, "R1", "earlier", &action(), 1).unwrap();
    let s = Scheduled { job: job("J", Trigger::OneShot { at: 5 }, &["R1", "R2", "R9"]), due: 5, runs: 0 };
    let out = fire(&mut r, &s, "job", 5);
    let mut sent = Vec::new();
    for (o, conn) in out.iter().zip([Some(11u64), Some(22), None]) {
        match (&o.outcome, conn) {
            (Ok(d), Some(c)) => {
                assert!(d.corr_id.starts_with("job-"));
                assert_eq!(d.corr_id.len(), 14);
                assert_eq!(d.delivery.conn_id, c);
                assert_eq!(
                    decode(&d.delivery.bytes),
                    Ok(Envelope::new(&d.corr_id, Payload::Job(action())))
                );
                assert_eq!(r.waiting(&d.corr_id), Some((o.target.clone(), 35)));
                sent.push(d.corr_id.clone());
            }
            (Err(e), None) => assert_eq!(*e, SendError::UnreachableTarget),
            other => panic!("unexpected {:?}", other),
        }
    }
    assert_eq!(sent.len(), 2);
    assert_ne!(sent[0], sent[1]);
    assert_eq!(r.pending_len(), 3);
    assert_eq!(r.waiting("earlier"), Some((String::from("R1"), 31)));
}

#[test]
fn run_due_adds_exactly_the_requests_that_went_out() {
    let mut sched = Scheduler::new();
    let mut r = relay();
    r.register("R1", 1, 0);
    sched.insert(job("A", Trigger::OneShot { at: 1 }, &["R1", "R2", "R1"]), 0).unwrap();
    sched.insert(job("B", Trigger::Interval { start: 1, every: 9 }, &["R1"]), 0).unwrap();
    dispatch_with(&mut r, "R1", "earlier", &action(), 0).unwrap();
    let round = run_due(&mut sched, &mut r, "job", 1);
    let mut went_out = 0;
    for (fired, occs) in round.fired.iter().zip(round.occurrences.iter()) {
        for o in occs {
            if let Ok(d) = &o.outcome {
                went_out += 1;
                assert_eq!(
                    decode(&d.delivery.bytes),
                    Ok(Envelope::new(&d.corr_id, Payload::Job(fired.job.action.duplicate())))
                );
                assert_eq!(r.waiting(&d.corr_id), Some((o.target.clone(), 31)));
            } else {
                assert_eq!(o.target, "R2");
            }
        }
    }
    assert_eq!(went_out, 3);
    assert_eq!(r.pending_len(), 4);
}

#[test]
fn dispatch_to_a_reachable_target_succeeds_when_no_tagged_id_waits() {
    let mut r = relay();
    r.register("R1", 1, 0);
    for now in 0..20u64 {
        let d = dispatch(&mut r, "R1", "job", &action(), now).unwrap();
        assert_eq!(r.disconnect("nobody").failed.len(), 0);
        let resolved = r.on_message(
            "R1",
            &encode(&Envelope::new(&d.corr_id, Payload::Response { body: vec![] })),
            now,
        );
        assert!(matches!(resolved, Inbound::Resolved { .. }));
        assert_eq!(r.pending_len(), 0);
    }
}

#[test]
fn open_tunnel_to_an_unreachable_agent_with_no_sessions_is_unreachable() {
    let mut r = relay();
    let mut tunnels = TunnelManager::new(8, 600).unwrap();
    for now in 0..5u64 {
        assert_eq!(open_tunnel(&mut r, &mut tunnels, "A", now), Err(OpenError::UnreachableTarget));
        assert_eq!(tunnels.len(), 0);
        assert_eq!(r.pending_len(), 0);
    }
}
