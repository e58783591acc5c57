//! The session loop's decisions: from the current stores and one transport
//! event to the next stores and the actions to perform.
use crate::commit::{FullCommit, FullCommitView};
use crate::protocol::{after_message, handle_message, replies_to, MessageView, SyncMessage};
use crate::registry::{remembered, remembered_all, PeerRegistry};
use crate::store::CommitStore;
use vstd::prelude::*;

verus! {

/// An event of the transport, or of the timer.
#[derive(Debug)]
pub enum Event {
    /// A connection to `peer` at `address` was established.
    ConnectionEstablished { peer: String, address: String },
    /// Discovery found each `(peer, address)`.
    Discovered { found: Vec<(String, String)> },
    /// Discovery lost each peer; the flag tells whether another discovery
    /// path still reports it reachable.
    Expired { lost: Vec<(String, bool)> },
    /// A payload arrived on the broadcast topic; `None` where it was not a
    /// protocol message.
    Message { message: Option<SyncMessage> },
    /// The periodic timer fired.
    Tick,
}

pub ghost enum EventView {
    ConnectionEstablished(Seq<char>, Seq<char>),
    Discovered(Seq<(Seq<char>, Seq<char>)>),
    Expired(Seq<(Seq<char>, bool)>),
    Message(Option<MessageView>),
    Tick,
}

impl View for Event {
    type V = EventView;

    open spec fn view(&self) -> EventView {
        match self {
            Event::ConnectionEstablished { peer, address } => EventView::ConnectionEstablished(
                peer@,
                address@,
            ),
            Event::Discovered { found } => EventView::Discovered(
                found@.map_values(|f: (String, String)| f@),
            ),
            Event::Expired { lost } => EventView::Expired(
                lost@.map_values(|l: (String, bool)| (l.0@, l.1)),
            ),
            Event::Message { message } => EventView::Message(
                match message {
                    Some(m) => Some(m@),
                    None => None,
                },
            ),
            Event::Tick => EventView::Tick,
        }
    }
}

/// What the loop is to do next.
#[derive(Debug)]
pub enum Action {
    /// Wait briefly so that a new peer's subscription settles.
    Settle,
    /// Broadcast a protocol message.
    Publish(SyncMessage),
    /// Dial an address.
    Dial(String),
    /// Add a peer to the broadcast view.
    AddToView(String),
    /// Remove a peer from the broadcast view.
    RemoveFromView(String),
    /// Persist the peer registry.
    SavePeers,
    /// Persist an imported snapshot.
    SaveCommit(FullCommit),
}

pub ghost enum ActionView {
    Settle,
    Publish(MessageView),
    Dial(Seq<char>),
    AddToView(Seq<char>),
    RemoveFromView(Seq<char>),
    SavePeers,
    SaveCommit(FullCommitView),
}

impl View for Action {
    type V = ActionView;

    open spec fn view(&self) -> ActionView {
        match self {
            Action::Settle => ActionView::Settle,
            Action::Publish(m) => ActionView::Publish(m@),
            Action::Dial(a) => ActionView::Dial(a@),
            Action::AddToView(p) => ActionView::AddToView(p@),
            Action::RemoveFromView(p) => ActionView::RemoveFromView(p@),
            Action::SavePeers => ActionView::SavePeers,
            Action::SaveCommit(f) => ActionView::SaveCommit(f@),
        }
    }
}

/// The views of a list of actions.
pub open spec fn action_views(actions: Seq<Action>) -> Seq<ActionView> {
    actions.map_values(|a: Action| a@)
}

/// A save of the registry, where it changed.
pub open spec fn save_if(changed: bool) -> Seq<ActionView> {
    if changed {
        seq![ActionView::SavePeers]
    } else {
        Seq::empty()
    }
}

/// A broadcast of each message, in order.
pub open spec fn publish_all(msgs: Seq<MessageView>) -> Seq<ActionView> {
    msgs.map_values(|m: MessageView| ActionView::Publish(m))
}

/// The commit store, the known addresses and the actions after `e`, from the
/// commit store `store` and the known addresses `peers`.
pub open spec fn step(store: Seq<FullCommitView>, peers: Seq<Seq<char>>, e: EventView) -> (
    Seq<FullCommitView>,
    Seq<Seq<char>>,
    Seq<ActionView>,
) {
    match e {
        EventView::ConnectionEstablished(_, address) => {
            let p = remembered(peers, address);
            (
                store,
                p,
                save_if(p.len() != peers.len()) + seq![
                    ActionView::Settle,
                    ActionView::Publish(MessageView::AskForCommits),
                ],
            )
        },
        EventView::Discovered(found) => {
            let p = remembered_all(peers, found.map_values(|f: (Seq<char>, Seq<char>)| f.1));
            (
                store,
                p,
                found.map_values(|f: (Seq<char>, Seq<char>)| ActionView::AddToView(f.0)) + save_if(
                    p.len() != peers.len(),
                ) + seq![ActionView::Publish(MessageView::AskForCommits)],
            )
        },
        EventView::Expired(lost) => (
            store,
            peers,
            lost.filter(|l: (Seq<char>, bool)| !l.1).map_values(
                |l: (Seq<char>, bool)| ActionView::RemoveFromView(l.0),
            ),
        ),
        EventView::Message(None) => (store, peers, Seq::empty()),
        EventView::Message(Some(m)) => (
            after_message(store, m),
            peers,
            publish_all(replies_to(store, m)) + match m {
                MessageView::FullCommit(f) => seq![ActionView::SaveCommit(f)],
                _ => Seq::empty(),
            },
        ),
        EventView::Tick => (store, peers, peers.map_values(|a: Seq<char>| ActionView::Dial(a))),
    }
}

/// A payload that is not a protocol message changes nothing and is answered
/// by nothing.
pub proof fn lemma_undecodable_ignored(store: Seq<FullCommitView>, peers: Seq<Seq<char>>)
    ensures
        step(store, peers, EventView::Message(None)) == (store, peers, Seq::<ActionView>::empty()),
{
}

/// Broadcasts of each of `msgs`, in order, appended to `out`.
fn push_publishes(out: &mut Vec<Action>, msgs: Vec<SyncMessage>)
    ensures
        action_views(final(out)@) == action_views(old(out)@) + publish_all(
            msgs@.map_values(|m: SyncMessage| m@),
        ),
{
    let ghost start = old(out)@;
    let ghost all = msgs@.map_values(|m: SyncMessage| m@);
    let ghost publish = |m: MessageView| ActionView::Publish(m);
    let ghost mut k: int = 0;
    let mut rest = msgs;
    while rest.len() > 0
        invariant
            0 <= k <= all.len(),
            all == msgs@.map_values(|m: SyncMessage| m@),
            publish == (|m: MessageView| ActionView::Publish(m)),
            rest@.map_values(|m: SyncMessage| m@) == all.skip(k),
            action_views(out@) == action_views(start) + all.take(k).map_values(publish),
        decreases rest@.len(),
    {
        let ghost before = action_views(out@);
        let ghost prior = rest@;
        assert(prior.map_values(|m: SyncMessage| m@).len() == all.skip(k).len());
        assert(k < all.len());
        assert(all.skip(k)[0] == all[k]);
        let m = rest.remove(0);
        assert(prior.map_values(|m: SyncMessage| m@)[0] == m@);
        assert(m@ == all[k]);
        assert(rest@ =~= prior.skip(1));
        assert forall|j: int| 0 <= j < rest@.len() implies #[trigger] rest@[j]@ == all[k + 1 + j] by {
            assert(rest@[j] == prior[j + 1]);
            assert(prior.map_values(|m: SyncMessage| m@)[j + 1] == all.skip(k)[j + 1]);
        }
        assert(rest@.map_values(|m: SyncMessage| m@) =~= all.skip(k + 1));
        out.push(Action::Publish(m));
        assert(action_views(out@) =~= before.push(publish(all[k])));
        assert(all.take(k + 1) =~= all.take(k).push(all[k]));
        assert(all.take(k + 1).map_values(publish) =~= all.take(k).map_values(publish).push(
            publish(all[k]),
        ));
        proof {
            k = k + 1;
        }
    }
    assert(all.take(k) =~= all);
    assert(publish_all(all) =~= all.map_values(publish));
}

/// Handles the discovery of each `(peer, address)` of `found`.
fn on_discovered(peers: &mut PeerRegistry, found: Vec<(String, String)>) -> (r: Vec<Action>)
    requires
        old(peers).wf(),
    ensures
        final(peers).wf(),
        ({
            let (_, p, actions) = step(
                Seq::empty(),
                old(peers)@,
                EventView::Discovered(found@.map_values(|f: (String, String)| f@)),
            );
            final(peers)@ == p && action_views(r@) == actions
        }),
{
    let ghost fv = found@.map_values(|f: (String, String)| f@);
    let ghost addrs = fv.map_values(|f: (Seq<char>, Seq<char>)| f.1);
    let ghost views = fv.map_values(|f: (Seq<char>, Seq<char>)| ActionView::AddToView(f.0));
    let ghost initial = peers@;
    let mut out: Vec<Action> = Vec::new();
    let mut changed = false;
    let mut i: usize = 0;
    while i < found.len()
        invariant
            i <= found@.len(),
            fv == found@.map_values(|f: (String, String)| f@),
            addrs == fv.map_values(|f: (Seq<char>, Seq<char>)| f.1),
            views == fv.map_values(|f: (Seq<char>, Seq<char>)| ActionView::AddToView(f.0)),
            peers.wf(),
            peers@ == remembered_all(initial, addrs.take(i as int)),
            peers@.len() >= initial.len(),
            changed <==> peers@.len() != initial.len(),
            out@.len() == i,
            action_views(out@) == views.take(i as int),
        decreases found@.len() - i,
    {
        assert(addrs.take(i + 1).drop_last() =~= addrs.take(i as int));
        assert(addrs.take(i + 1).last() == found@[i as int].1@);
        let peer = found[i].0.clone();
        let address = found[i].1.clone();
        out.push(Action::AddToView(peer));
        if peers.remember(address) {
            changed = true;
        }
        i = i + 1;
        assert(action_views(out@) =~= views.take(i as int));
    }
    assert(addrs.take(i as int) =~= addrs);
    assert(views.take(i as int) =~= views);
    if changed {
        out.push(Action::SavePeers);
    }
    out.push(Action::Publish(SyncMessage::AskForCommits));
    assert(action_views(out@) =~= views + save_if(peers@.len() != initial.len()) + seq![
        ActionView::Publish(MessageView::AskForCommits),
    ]);
    out
}

/// Handles the loss of each peer of `lost` that no other path still reports.
fn on_expired(lost: Vec<(String, bool)>) -> (r: Vec<Action>)
    ensures
        action_views(r@) == step(
            Seq::empty(),
            Seq::empty(),
            EventView::Expired(lost@.map_values(|l: (String, bool)| (l.0@, l.1))),
        ).2,
{
    let ghost lv = lost@.map_values(|l: (String, bool)| (l.0@, l.1));
    let ghost pred = |l: (Seq<char>, bool)| !l.1;
    let ghost to_action = |l: (Seq<char>, bool)| ActionView::RemoveFromView(l.0);
    let mut out: Vec<Action> = Vec::new();
    let mut i: usize = 0;
    while i < lost.len()
        invariant
            i <= lost@.len(),
            lv == lost@.map_values(|l: (String, bool)| (l.0@, l.1)),
            pred == (|l: (Seq<char>, bool)| !l.1),
            to_action == (|l: (Seq<char>, bool)| ActionView::RemoveFromView(l.0)),
            action_views(out@) == lv.take(i as int).filter(pred).map_values(to_action),
        decreases lost@.len() - i,
    {
        let ghost t = lv.take(i as int);
        let ghost t1 = lv.take(i + 1);
        let ghost before = action_views(out@);
        proof {
            reveal(Seq::filter);
            assert(t1.drop_last() =~= t);
            assert(t1.last() == lv[i as int]);
        }
        if !lost[i].1 {
            let peer = lost[i].0.clone();
            out.push(Action::RemoveFromView(peer));
            assert(t1.filter(pred) == t.filter(pred).push(t1.last()));
            assert(action_views(out@) =~= before.push(to_action(t1.last())));
        } else {
            assert(t1.filter(pred) == t.filter(pred));
        }
        i = i + 1;
        assert(action_views(out@) =~= lv.take(i as int).filter(pred).map_values(to_action));
    }
    assert(lv.take(i as int) =~= lv);
    out
}

/// Decides what follows `event`: updates the commit store and the known
/// addresses, and returns the actions to perform, in order.
pub fn on_event(store: &mut CommitStore, peers: &mut PeerRegistry, event: Event) -> (r: Vec<
    Action,
>)
    requires
        old(store).wf(),
        old(peers).wf(),
    ensures
        final(store).wf(),
        final(peers).wf(),
        step(old(store)@, old(peers)@, event@) == (final(store)@, final(peers)@, action_views(r@)),
{
    let ghost e = event@;
    match event {
        Event::ConnectionEstablished { peer, address } => {
            let mut out: Vec<Action> = Vec::new();
            if peers.remember(address) {
                out.push(Action::SavePeers);
            }
            out.push(Action::Settle);
            out.push(Action::Publish(SyncMessage::AskForCommits));
            assert(action_views(out@) =~= step(old(store)@, old(peers)@, e).2);
            out
        },
        Event::Discovered { found } => on_discovered(peers, found),
        Event::Expired { lost } => on_expired(lost),
        Event::Message { message } => {
            let mut out: Vec<Action> = Vec::new();
            match message {
                None => {
                    assert(action_views(out@) =~= Seq::<ActionView>::empty());
                },
                Some(m) => {
                    let saved = match &m {
                        SyncMessage::FullCommit(full) => Some(full.copy()),
                        _ => None,
                    };
                    let replies = handle_message(store, m);
                    push_publishes(&mut out, replies);
                    match saved {
                        Some(full) => {
                            out.push(Action::SaveCommit(full));
                        },
                        None => {},
                    }
                    assert(action_views(out@) =~= step(old(store)@, old(peers)@, e).2);
                },
            }
            out
        },
        Event::Tick => {
            let addrs = peers.addresses();
            let ghost av = addrs@.map_values(|s: String| s@);
            let ghost dial = |a: Seq<char>| ActionView::Dial(a);
            let mut out: Vec<Action> = Vec::new();
            let mut i: usize = 0;
            while i < addrs.len()
                invariant
                    i <= addrs@.len(),
                    av == addrs@.map_values(|s: String| s@),
                    dial == (|a: Seq<char>| ActionView::Dial(a)),
                    out@.len() == i,
                    action_views(out@) == av.take(i as int).map_values(dial),
                decreases addrs@.len() - i,
            {
                let ghost before = action_views(out@);
                let a = addrs[i].clone();
                assert(a@ == av[i as int]);
                out.push(Action::Dial(a));
                assert(action_views(out@) =~= before.push(dial(av[i as int])));
                assert(av.take(i + 1) =~= av.take(i as int).push(av[i as int]));
                assert(av.take(i + 1).map_values(dial) =~= av.take(i as int).map_values(dial).push(
                    dial(av[i as int]),
                ));
                i = i + 1;
            }
            assert(av.take(i as int) =~= av);
            assert(av.map_values(dial) =~= av.map_values(|a: Seq<char>| ActionView::Dial(a)));
            out
        },
    }
}

} // verus!
