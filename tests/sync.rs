use git2p::commit::{Commit, FullCommit};
use git2p::protocol::{handle_message, respond, SyncMessage};
use git2p::registry::PeerRegistry;
use git2p::session::{on_event, Action, Event};
use git2p::store::CommitStore;

fn s(text: &str) -> String {
    text.to_string()
}

fn snapshot(id: &str, content: &str) -> FullCommit {
    FullCommit {
        commit: Commit { id: s(id), message: s(id), timestamp: s("2024-01-01T00:00:00+00:00") },
        files: vec![(s("f.txt"), content.as_bytes().to_vec())],
    }
}

fn store_with(ids: &[&str]) -> CommitStore {
    let mut store = CommitStore::new();
    for id in ids {
        store.apply_remote(snapshot(id, id));
    }
    store
}

fn sorted(mut v: Vec<String>) -> Vec<String> {
    v.sort();
    v
}

/// Delivers each of `msgs` to `store` and gathers every reply.
fn deliver(store: &mut CommitStore, msgs: Vec<SyncMessage>) -> Vec<SyncMessage> {
    let mut out = Vec::new();
    for m in msgs {
        out.extend(handle_message(store, m));
    }
    out
}

/// `local` pulls from `remote` through the protocol messages.
fn pull(local: &mut CommitStore, remote: &mut CommitStore) {
    let announce = deliver(remote, vec![SyncMessage::AskForCommits]);
    let requests = deliver(local, announce);
    let snapshots = deliver(remote, requests);
    let rest = deliver(local, snapshots);
    assert!(rest.is_empty());
}

#[test]
fn ask_for_commits_is_answered_with_ids() {
    let store = store_with(&["x", "y"]);
    let out = respond(&store, &SyncMessage::AskForCommits);
    assert_eq!(out.len(), 1);
    match &out[0] {
        SyncMessage::MyCommits { commits } => assert_eq!(commits, &vec![s("x"), s("y")]),
        other => panic!("unexpected {other:?}"),
    }
}

#[test]
fn my_commits_requests_only_missing_ids() {
    let store = store_with(&["y"]);
    let msg = SyncMessage::MyCommits { commits: vec![s("x"), s("y"), s("z")] };
    let out = respond(&store, &msg);
    let ids: Vec<String> = out
        .iter()
        .map(|m| match m {
            SyncMessage::AskForCommit { commit_id } => commit_id.clone(),
            other => panic!("unexpected {other:?}"),
        })
        .collect();
    assert_eq!(ids, vec![s("x"), s("z")]);
}

#[test]
fn my_commits_with_nothing_new_requests_nothing() {
    let store = store_with(&["x"]);
    assert!(respond(&store, &SyncMessage::MyCommits { commits: vec![s("x")] }).is_empty());
    assert!(respond(&store, &SyncMessage::MyCommits { commits: vec![] }).is_empty());
}

#[test]
fn ask_for_commit_sends_snapshot_or_nothing() {
    let store = store_with(&["x"]);
    let out = respond(&store, &SyncMessage::AskForCommit { commit_id: s("x") });
    match &out[..] {
        [SyncMessage::FullCommit(full)] => {
            assert_eq!(full.commit.id, "x");
            assert_eq!(full.files, vec![(s("f.txt"), b"x".to_vec())]);
        }
        other => panic!("unexpected {other:?}"),
    }
    assert!(respond(&store, &SyncMessage::AskForCommit { commit_id: s("q") }).is_empty());
}

#[test]
fn full_commit_is_imported_without_reply() {
    let mut store = CommitStore::new();
    let out = handle_message(&mut store, SyncMessage::FullCommit(snapshot("x", "data")));
    assert!(out.is_empty());
    assert_eq!(store.list_commit_ids(), vec![s("x")]);
    let again = handle_message(&mut store, SyncMessage::FullCommit(snapshot("x", "data")));
    assert!(again.is_empty());
    assert_eq!(store.len(), 1);
}

#[test]
fn two_peers_converge_after_exchange() {
    let mut a = store_with(&["x", "y"]);
    let mut b = store_with(&["y", "z"]);
    pull(&mut a, &mut b);
    pull(&mut b, &mut a);
    let all = vec![s("x"), s("y"), s("z")];
    assert_eq!(sorted(a.list_commit_ids()), all);
    assert_eq!(sorted(b.list_commit_ids()), all);
    assert_eq!(b.materialize(&s("x")).unwrap().files[0].1, b"x".to_vec());
}

#[test]
fn undecodable_payload_changes_nothing() {
    let mut store = store_with(&["x"]);
    let mut peers = PeerRegistry::new();
    let actions = on_event(&mut store, &mut peers, Event::Message { message: None });
    assert!(actions.is_empty());
    assert_eq!(store.list_commit_ids(), vec![s("x")]);
    assert_eq!(peers.len(), 0);
}

#[test]
fn connection_remembers_address_and_asks() {
    let mut store = CommitStore::new();
    let mut peers = PeerRegistry::new();
    let ev = || Event::ConnectionEstablished { peer: s("peerB"), address: s("/ip4/10.0.0.2/tcp/1") };
    let first = on_event(&mut store, &mut peers, ev());
    assert!(matches!(
        &first[..],
        [Action::SavePeers, Action::Settle, Action::Publish(SyncMessage::AskForCommits)]
    ));
    let second = on_event(&mut store, &mut peers, ev());
    assert!(matches!(&second[..], [Action::Settle, Action::Publish(SyncMessage::AskForCommits)]));
    assert_eq!(peers.len(), 1);
}

#[test]
fn discovery_adds_to_view_and_asks_once() {
    let mut store = CommitStore::new();
    let mut peers = PeerRegistry::new();
    let found = vec![
        (s("peer_a"), s("/ip4/10.0.0.1/tcp/1")),
        (s("peer_b"), s("/ip4/10.0.0.2/tcp/1")),
        (s("peer_a"), s("/ip4/10.0.0.1/tcp/1")),
    ];
    let actions = on_event(&mut store, &mut peers, Event::Discovered { found });
    assert_eq!(actions.len(), 5);
    assert!(matches!(&actions[0], Action::AddToView(p) if p == "peer_a"));
    assert!(matches!(&actions[1], Action::AddToView(p) if p == "peer_b"));
    assert!(matches!(&actions[2], Action::AddToView(p) if p == "peer_a"));
    assert!(matches!(&actions[3], Action::SavePeers));
    assert!(matches!(&actions[4], Action::Publish(SyncMessage::AskForCommits)));
    assert_eq!(peers.len(), 2);
}

#[test]
fn expiry_removes_only_unreachable_peers() {
    let mut store = CommitStore::new();
    let mut peers = PeerRegistry::new();
    let lost = vec![(s("peer_a"), true), (s("peer_b"), false)];
    let actions = on_event(&mut store, &mut peers, Event::Expired { lost });
    assert_eq!(actions.len(), 1);
    assert!(matches!(&actions[0], Action::RemoveFromView(p) if p == "peer_b"));
}

#[test]
fn tick_dials_every_known_address() {
    let mut store = CommitStore::new();
    let mut peers = PeerRegistry::new();
    peers.remember(s("/ip4/10.0.0.1/tcp/1"));
    peers.remember(s("/ip4/10.0.0.2/tcp/1"));
    let actions = on_event(&mut store, &mut peers, Event::Tick);
    assert_eq!(actions.len(), 2);
    assert!(matches!(&actions[0], Action::Dial(a) if a == "/ip4/10.0.0.1/tcp/1"));
    assert!(matches!(&actions[1], Action::Dial(a) if a == "/ip4/10.0.0.2/tcp/1"));
}

/// Publishes every `Publish` action of `actions` and returns the messages.
fn published(actions: Vec<Action>) -> Vec<SyncMessage> {
    actions
        .into_iter()
        .filter_map(|a| match a {
            Action::Publish(m) => Some(m),
            _ => None,
        })
        .collect()
}

/// Delivers each broadcast to `store` as the session would, gathering the
/// broadcasts it makes in turn.
fn broadcast_to(store: &mut CommitStore, peers: &mut PeerRegistry, msgs: Vec<SyncMessage>) -> Vec<SyncMessage> {
    let mut out = Vec::new();
    for m in msgs {
        out.extend(published(on_event(store, peers, Event::Message { message: Some(m) })));
    }
    out
}

#[test]
fn new_peer_receives_commit_through_session() {
    let mut a = CommitStore::new();
    let mut a_peers = PeerRegistry::new();
    let c1 = a
        .create_commit(&s("init"), &s("2024-01-01T00:00:00+00:00"), vec![(s("a.txt"), b"hello".to_vec())])
        .unwrap();
    let mut b = CommitStore::new();
    let mut b_peers = PeerRegistry::new();

    // A sees the connection and asks; B has nothing.
    let ask = published(on_event(
        &mut a,
        &mut a_peers,
        Event::ConnectionEstablished { peer: s("B"), address: s("/ip4/10.0.0.2/tcp/1") },
    ));
    let announce = broadcast_to(&mut b, &mut b_peers, ask);
    let requests = broadcast_to(&mut a, &mut a_peers, announce);
    assert!(requests.is_empty());

    // B sees the connection and asks; A answers with c1.
    let ask = published(on_event(
        &mut b,
        &mut b_peers,
        Event::ConnectionEstablished { peer: s("A"), address: s("/ip4/10.0.0.1/tcp/1") },
    ));
    let announce = broadcast_to(&mut a, &mut a_peers, ask);
    let requests = broadcast_to(&mut b, &mut b_peers, announce);
    assert_eq!(requests.len(), 1);
    let snapshots = broadcast_to(&mut a, &mut a_peers, requests);
    let mut saved = Vec::new();
    for m in snapshots {
        for action in on_event(&mut b, &mut b_peers, Event::Message { message: Some(m) }) {
            if let Action::SaveCommit(full) = action {
                saved.push(full);
            }
        }
    }
    assert_eq!(saved.len(), 1);
    assert_eq!(saved[0].commit.id, c1.id);
    assert_eq!(b.list_commit_ids(), vec![c1.id.clone()]);
    let full = b.materialize(&c1.id).unwrap();
    assert_eq!(full.files, vec![(s("a.txt"), b"hello".to_vec())]);
    assert_eq!(full.commit.message, "init");
}

#[test]
fn exchanged_snapshots_are_identical() {
    let mut a = store_with(&["x", "y"]);
    let mut b = store_with(&["y", "z"]);
    pull(&mut a, &mut b);
    pull(&mut b, &mut a);
    for id in ["x", "y", "z"] {
        let fa = a.materialize(&s(id)).unwrap();
        let fb = b.materialize(&s(id)).unwrap();
        assert_eq!(fa.commit.message, fb.commit.message);
        assert_eq!(fa.files, fb.files);
        assert_eq!(fa.files, vec![(s("f.txt"), id.as_bytes().to_vec())]);
    }
}
