use automate::tunnel::{drain_front, fill, End, LinkState, TunnelError, TunnelManager};

fn open_session(m: &mut TunnelManager, session: &str, agent: &str, now: u64) {
    m.open(session, agent, now).unwrap();
    m.acknowledge(session, now).unwrap();
}

#[test]
fn fill_takes_what_fits() {
    let mut buf = vec![1u8, 2];
    assert_eq!(fill(&mut buf, &[3, 4, 5], 4), 2);
    assert_eq!(buf, vec![1, 2, 3, 4]);
    assert_eq!(fill(&mut buf, &[6], 4), 0);
    assert_eq!(buf, vec![1, 2, 3, 4]);
    assert_eq!(fill(&mut buf, &[], 4), 0);
    let mut over = vec![1u8, 2, 3];
    assert_eq!(fill(&mut over, &[9], 2), 0);
    assert_eq!(over, vec![1, 2, 3]);
    let mut empty = Vec::new();
    assert_eq!(fill(&mut empty, &[7, 8], 10), 2);
    assert_eq!(empty, vec![7, 8]);
}

#[test]
fn drain_front_takes_the_oldest_bytes() {
    let mut buf = vec![1u8, 2, 3, 4, 5];
    assert_eq!(drain_front(&mut buf, 2), vec![1, 2]);
    assert_eq!(buf, vec![3, 4, 5]);
    assert_eq!(drain_front(&mut buf, 0), Vec::<u8>::new());
    assert_eq!(drain_front(&mut buf, 10), vec![3, 4, 5]);
    assert!(buf.is_empty());
    assert_eq!(drain_front(&mut buf, 10), Vec::<u8>::new());
}

#[test]
fn manager_needs_capacity_and_timeout() {
    assert!(TunnelManager::new(1, 1).is_some());
    assert!(TunnelManager::new(0, 1).is_none());
    assert!(TunnelManager::new(1, 0).is_none());
}

#[test]
fn open_creates_an_opening_pair() {
    let mut m = TunnelManager::new(8, 60).unwrap();
    assert_eq!(m.open("s1", "agent1", 10), Ok(()));
    assert_eq!(m.lookup("s1"), Some((String::from("agent1"), LinkState::Opening)));
    assert_eq!(m.buffered("s1", End::Agent), Some(0));
    assert_eq!(m.buffered("s1", End::Client), Some(0));
    assert_eq!(m.len(), 1);
}

#[test]
fn open_refuses_a_duplicate_session() {
    let mut m = TunnelManager::new(8, 60).unwrap();
    m.open("s1", "agent1", 10).unwrap();
    assert_eq!(m.open("s1", "agent2", 11), Err(TunnelError::DuplicateSession));
    assert_eq!(m.lookup("s1"), Some((String::from("agent1"), LinkState::Opening)));
}

#[test]
fn no_bytes_move_before_the_acknowledgement() {
    let mut m = TunnelManager::new(8, 60).unwrap();
    m.open("s1", "agent1", 10).unwrap();
    assert_eq!(m.write("s1", End::Client, &[1], 11), Err(TunnelError::NotOpen));
    assert_eq!(m.read("s1", End::Agent, 1, 11), Err(TunnelError::NotOpen));
    assert_eq!(m.acknowledge("s1", 12), Ok(()));
    assert_eq!(m.lookup("s1"), Some((String::from("agent1"), LinkState::Open)));
    assert_eq!(m.write("s1", End::Client, &[1], 13), Ok(1));
}

#[test]
fn unknown_session_is_closed() {
    let mut m = TunnelManager::new(8, 60).unwrap();
    assert_eq!(m.acknowledge("nope", 1), Err(TunnelError::Closed));
    assert_eq!(m.write("nope", End::Client, &[1], 1), Err(TunnelError::Closed));
    assert_eq!(m.read("nope", End::Client, 1, 1), Err(TunnelError::Closed));
    assert_eq!(m.close("nope"), None);
    assert_eq!(m.lookup("nope"), None);
    assert_eq!(m.buffered("nope", End::Agent), None);
}

#[test]
fn bytes_cross_in_both_directions_in_order() {
    let mut m = TunnelManager::new(64, 60).unwrap();
    open_session(&mut m, "s1", "agent1", 0);
    assert_eq!(m.write("s1", End::Client, b"ls -l\n", 1), Ok(6));
    assert_eq!(m.write("s1", End::Client, b"pwd\n", 2), Ok(4));
    assert_eq!(m.write("s1", End::Agent, b"total 0\n", 3), Ok(8));
    assert_eq!(m.buffered("s1", End::Agent), Some(10));
    assert_eq!(m.buffered("s1", End::Client), Some(8));
    assert_eq!(m.read("s1", End::Agent, 3, 4), Ok(b"ls ".to_vec()));
    assert_eq!(m.read("s1", End::Agent, 100, 5), Ok(b"-l\npwd\n".to_vec()));
    assert_eq!(m.read("s1", End::Agent, 100, 6), Ok(Vec::new()));
    assert_eq!(m.read("s1", End::Client, 100, 7), Ok(b"total 0\n".to_vec()));
}

#[test]
fn full_buffer_pushes_back() {
    let mut m = TunnelManager::new(4, 60).unwrap();
    open_session(&mut m, "s1", "agent1", 0);
    assert_eq!(m.write("s1", End::Client, &[1, 2, 3], 1), Ok(3));
    assert_eq!(m.write("s1", End::Client, &[4, 5, 6], 1), Ok(1));
    assert_eq!(m.write("s1", End::Client, &[5, 6], 1), Ok(0));
    assert_eq!(m.write("s1", End::Agent, &[9, 9, 9, 9, 9], 1), Ok(4));
    assert_eq!(m.read("s1", End::Agent, 2, 2), Ok(vec![1, 2]));
    assert_eq!(m.write("s1", End::Client, &[5, 6, 7], 3), Ok(2));
    assert_eq!(m.read("s1", End::Agent, 10, 4), Ok(vec![3, 4, 5, 6]));
}

#[test]
fn link_delivers_two_megabytes_in_order_under_backpressure() {
    let mut m = TunnelManager::new(4096, 60).unwrap();
    open_session(&mut m, "s1", "agent1", 0);
    let total: usize = 2 * 1024 * 1024;
    let source: Vec<u8> = (0..total).map(|i| ((i * 31 + i / 251) % 256) as u8).collect();
    let sizes = [1usize, 7, 100, 5000, 64, 9000, 3, 4096, 4097, 2];
    let reads = [1000usize, 0, 1, 300, 0, 0, 8192, 17];
    let mut sent = 0usize;
    let mut received: Vec<u8> = Vec::with_capacity(total);
    let mut step = 0usize;
    let mut pushed_back = 0usize;
    while received.len() < total {
        if sent < total {
            let want = sizes[step % sizes.len()].min(total - sent);
            let n = m.write("s1", End::Client, &source[sent..sent + want], step as u64).unwrap();
            assert!(n <= want);
            if n < want {
                pushed_back += 1;
            }
            sent += n;
        }
        assert!(m.buffered("s1", End::Agent).unwrap() <= 4096);
        let max = if sent == total { 4096 } else { reads[step % reads.len()] };
        let got = m.read("s1", End::Agent, max, step as u64).unwrap();
        assert!(got.len() <= max);
        received.extend_from_slice(&got);
        assert_eq!(sent, received.len() + m.buffered("s1", End::Agent).unwrap());
        step += 1;
    }
    assert!(pushed_back > 0);
    assert_eq!(received.len(), total);
    assert!(received == source);
    assert_eq!(m.buffered("s1", End::Agent), Some(0));
    assert_eq!(m.buffered("s1", End::Client), Some(0));
}

#[test]
fn close_removes_the_pair_and_its_bytes() {
    let mut m = TunnelManager::new(8, 60).unwrap();
    open_session(&mut m, "s1", "agent1", 0);
    m.write("s1", End::Client, &[1, 2], 1).unwrap();
    let p = m.close("s1").unwrap();
    assert_eq!(p.session, "s1");
    assert_eq!(p.agent, "agent1");
    assert_eq!(p.to_agent, vec![1, 2]);
    assert_eq!(m.len(), 0);
    assert_eq!(m.write("s1", End::Agent, &[1], 2), Err(TunnelError::Closed));
    assert_eq!(m.read("s1", End::Agent, 1, 2), Err(TunnelError::Closed));
    assert_eq!(m.open("s1", "agent1", 3), Ok(()));
}

#[test]
fn close_agent_closes_only_its_sessions() {
    let mut m = TunnelManager::new(8, 60).unwrap();
    open_session(&mut m, "a1", "agentA", 0);
    open_session(&mut m, "b1", "agentB", 0);
    open_session(&mut m, "a2", "agentA", 0);
    m.open("a3", "agentA", 0).unwrap();
    m.write("b1", End::Client, &[5], 1).unwrap();
    let closed = m.close_agent("agentA");
    let names: Vec<&str> = closed.iter().map(|p| p.session.as_str()).collect();
    assert_eq!(names, vec!["a1", "a2", "a3"]);
    assert_eq!(m.len(), 1);
    assert_eq!(m.lookup("b1"), Some((String::from("agentB"), LinkState::Open)));
    assert_eq!(m.read("b1", End::Agent, 10, 2), Ok(vec![5]));
    assert!(m.close_agent("agentA").is_empty());
}

#[test]
fn close_agents_closes_the_sessions_of_each() {
    let mut m = TunnelManager::new(8, 60).unwrap();
    open_session(&mut m, "a1", "agentA", 0);
    open_session(&mut m, "b1", "agentB", 0);
    open_session(&mut m, "c1", "agentC", 0);
    let closed = m.close_agents(vec![String::from("agentC"), String::from("agentA")]);
    let names: Vec<&str> = closed.iter().map(|p| p.session.as_str()).collect();
    assert_eq!(names, vec!["a1", "c1"]);
    assert_eq!(m.len(), 1);
    assert!(m.close_agents(Vec::new()).is_empty());
    assert_eq!(m.len(), 1);
}

#[test]
fn sweep_closes_idle_sessions() {
    let mut m = TunnelManager::new(8, 60).unwrap();
    open_session(&mut m, "quiet", "agentA", 0);
    open_session(&mut m, "busy", "agentA", 0);
    m.write("busy", End::Client, &[1], 30).unwrap();
    assert!(m.sweep(59).is_empty());
    let closed = m.sweep(60);
    assert_eq!(closed.len(), 1);
    assert_eq!(closed[0].session, "quiet");
    assert_eq!(m.lookup("busy"), Some((String::from("agentA"), LinkState::Open)));
    assert!(m.sweep(89).is_empty());
    assert_eq!(m.sweep(90).len(), 1);
    assert_eq!(m.len(), 0);
}

#[test]
fn reading_counts_as_activity() {
    let mut m = TunnelManager::new(8, 60).unwrap();
    open_session(&mut m, "s1", "agentA", 0);
    m.read("s1", End::Client, 1, 50).unwrap();
    assert!(m.sweep(109).is_empty());
    assert_eq!(m.sweep(110).len(), 1);
}
