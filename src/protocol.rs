//! The synchronization protocol: what a peer answers to each message, read
//! from its commit store alone.
use crate::commit::{FullCommit, FullCommitView};
use crate::store::{
    applied, find, has_id, ids_of, index_of_id, lemma_applied_unique, unique_ids, CommitStore,
};
use vstd::prelude::*;

verus! {

/// A protocol message.
#[derive(Clone, Debug)]
pub enum SyncMessage {
    /// Asks every peer for the ids of its commits.
    AskForCommits,
    /// The ids of the sender's commits.
    MyCommits { commits: Vec<String> },
    /// Asks for the full snapshot of one commit.
    AskForCommit { commit_id: String },
    /// The full snapshot of one commit.
    FullCommit(FullCommit),
}

pub ghost enum MessageView {
    AskForCommits,
    MyCommits(Seq<Seq<char>>),
    AskForCommit(Seq<char>),
    FullCommit(FullCommitView),
}

impl View for SyncMessage {
    type V = MessageView;

    open spec fn view(&self) -> MessageView {
        match self {
            SyncMessage::AskForCommits => MessageView::AskForCommits,
            SyncMessage::MyCommits { commits } => MessageView::MyCommits(
                commits@.map_values(|c: String| c@),
            ),
            SyncMessage::AskForCommit { commit_id } => MessageView::AskForCommit(commit_id@),
            SyncMessage::FullCommit(full) => MessageView::FullCommit(full@),
        }
    }
}

/// The views of a list of messages.
pub open spec fn views(msgs: Seq<SyncMessage>) -> Seq<MessageView> {
    msgs.map_values(|m: SyncMessage| m@)
}

/// The requests for those of `commits` that `s` lacks, in order.
pub open spec fn requests_for(s: Seq<FullCommitView>, commits: Seq<Seq<char>>) -> Seq<MessageView> {
    commits.filter(|c: Seq<char>| !has_id(s, c)).map_values(
        |c: Seq<char>| MessageView::AskForCommit(c),
    )
}

/// What a peer whose store is `s` sends in answer to `m`.
pub open spec fn replies_to(s: Seq<FullCommitView>, m: MessageView) -> Seq<MessageView> {
    match m {
        MessageView::AskForCommits => seq![MessageView::MyCommits(ids_of(s))],
        MessageView::MyCommits(commits) => requests_for(s, commits),
        MessageView::AskForCommit(id) => match find(s, id) {
            Some(full) => seq![MessageView::FullCommit(full)],
            None => Seq::empty(),
        },
        MessageView::FullCommit(_) => Seq::empty(),
    }
}

/// The store `s` after handling `m`: only a full snapshot changes it.
pub open spec fn after_message(s: Seq<FullCommitView>, m: MessageView) -> Seq<FullCommitView> {
    match m {
        MessageView::FullCommit(full) => applied(s, full),
        _ => s,
    }
}

/// The store `s` after handling each of `msgs` in turn.
pub open spec fn after_all(s: Seq<FullCommitView>, msgs: Seq<MessageView>) -> Seq<FullCommitView>
    decreases msgs.len(),
{
    if msgs.len() == 0 {
        s
    } else {
        after_message(after_all(s, msgs.drop_last()), msgs.last())
    }
}

/// Everything a peer whose store starts as `s` sends while handling each of
/// `msgs` in turn.
pub open spec fn replies_all(s: Seq<FullCommitView>, msgs: Seq<MessageView>) -> Seq<MessageView>
    decreases msgs.len(),
{
    if msgs.len() == 0 {
        Seq::empty()
    } else {
        replies_all(s, msgs.drop_last()) + replies_to(after_all(s, msgs.drop_last()), msgs.last())
    }
}

/// Some message of `msgs` is the full snapshot of commit `id`.
pub open spec fn delivers(msgs: Seq<MessageView>, id: Seq<char>) -> bool {
    exists|i: int|
        0 <= i < msgs.len() && (#[trigger] msgs[i] matches MessageView::FullCommit(f)
            && f.commit.id == id)
}

/// No message of `msgs` is a full snapshot.
pub open spec fn no_snapshots(msgs: Seq<MessageView>) -> bool {
    forall|i: int| 0 <= i < msgs.len() ==> !(#[trigger] msgs[i] is FullCommit)
}

/// The ids of the commits in `s`, as a set.
pub open spec fn id_set(s: Seq<FullCommitView>) -> Set<Seq<char>> {
    Set::new(|id: Seq<char>| has_id(s, id))
}

/// One pull of `local` from `remote`: `local` asks for ids, `remote` announces
/// its own, `local` requests those it lacks, `remote` sends each snapshot and
/// `local` imports them. The stores of `local` and `remote` afterwards.
pub open spec fn pull(local: Seq<FullCommitView>, remote: Seq<FullCommitView>) -> (
    Seq<FullCommitView>,
    Seq<FullCommitView>,
) {
    let ask = seq![MessageView::AskForCommits];
    let announce = replies_all(remote, ask);
    let remote1 = after_all(remote, ask);
    let requests = replies_all(local, announce);
    let local1 = after_all(local, announce);
    let snapshots = replies_all(remote1, requests);
    let remote2 = after_all(remote1, requests);
    (after_all(local1, snapshots), remote2)
}

/// Importing `full` adds its id and no other.
proof fn lemma_applied_ids(s: Seq<FullCommitView>, full: FullCommitView, id: Seq<char>)
    requires
        unique_ids(s),
    ensures
        has_id(applied(s, full), id) <==> has_id(s, id) || id == full.commit.id,
{
    lemma_applied_unique(s, full);
    let t = applied(s, full);
    if has_id(s, full.commit.id) {
        let k = index_of_id(s, full.commit.id);
        if has_id(s, id) {
            let j = index_of_id(s, id);
            if j == k {
                assert(t[k].commit.id == id);
            } else {
                assert(t[j] == s[j]);
            }
        }
        if has_id(t, id) {
            let j = index_of_id(t, id);
            if j != k {
                assert(t[j] == s[j]);
            }
        }
    } else {
        if has_id(s, id) {
            let j = index_of_id(s, id);
            assert(t[j] == s[j]);
        }
        if has_id(t, id) {
            let j = index_of_id(t, id);
            if j < s.len() {
                assert(t[j] == s[j]);
            }
        }
    }
}

/// Handling `msgs` keeps ids unique and adds exactly the ids of the snapshots
/// among them.
proof fn lemma_after_all_ids(s: Seq<FullCommitView>, msgs: Seq<MessageView>, id: Seq<char>)
    requires
        unique_ids(s),
    ensures
        unique_ids(after_all(s, msgs)),
        has_id(after_all(s, msgs), id) <==> has_id(s, id) || delivers(msgs, id),
    decreases msgs.len(),
{
    if msgs.len() > 0 {
        let init = msgs.drop_last();
        let mid = after_all(s, init);
        lemma_after_all_ids(s, init, id);
        if delivers(init, id) {
            let i = choose|i: int|
                0 <= i < init.len() && (#[trigger] init[i] matches MessageView::FullCommit(f)
                    && f.commit.id == id);
            assert(msgs[i] == init[i]);
        }
        if delivers(msgs, id) {
            let i = choose|i: int|
                0 <= i < msgs.len() && (#[trigger] msgs[i] matches MessageView::FullCommit(f)
                    && f.commit.id == id);
            if i < init.len() {
                assert(init[i] == msgs[i]);
            }
        }
        match msgs.last() {
            MessageView::FullCommit(full) => {
                lemma_applied_unique(mid, full);
                lemma_applied_ids(mid, full, id);
            },
            _ => {},
        }
    }
}

/// A store is left as it is by messages that hold no snapshot, and the
/// snapshots it sends in answer are those asked for that it has.
proof fn lemma_answers(s: Seq<FullCommitView>, msgs: Seq<MessageView>, id: Seq<char>)
    requires
        no_snapshots(msgs),
    ensures
        after_all(s, msgs) == s,
        delivers(replies_all(s, msgs), id) <==> msgs.contains(MessageView::AskForCommit(id))
            && has_id(s, id),
    decreases msgs.len(),
{
    if msgs.len() > 0 {
        let init = msgs.drop_last();
        let last = msgs.last();
        assert(no_snapshots(init)) by {
            assert forall|i: int| 0 <= i < init.len() implies !(#[trigger] init[i] is FullCommit) by {
                assert(init[i] == msgs[i]);
            }
        }
        lemma_answers(s, init, id);
        let head = replies_all(s, init);
        let tail = replies_to(s, last);
        let all = replies_all(s, msgs);
        assert(all == head + tail);
        assert(!(msgs[msgs.len() - 1] is FullCommit));
        // What the last message adds.
        let tail_delivers = last == MessageView::AskForCommit(id) && has_id(s, id);
        assert(delivers(tail, id) <==> tail_delivers) by {
            match last {
                MessageView::AskForCommit(x) => {
                    if has_id(s, x) {
                        let k = index_of_id(s, x);
                        assert(tail[0] == MessageView::FullCommit(s[k]));
                        if delivers(tail, id) {
                            assert(s[k].commit.id == x);
                        }
                        if tail_delivers {
                            assert(s[k].commit.id == id);
                        }
                    }
                },
                MessageView::MyCommits(commits) => {
                    if delivers(tail, id) {
                        let i = choose|i: int|
                            0 <= i < tail.len() && (#[trigger] tail[i] matches MessageView::FullCommit(
                                f,
                            ) && f.commit.id == id);
                        assert(tail[i] is AskForCommit);
                    }
                },
                _ => {},
            }
        }
        if delivers(all, id) {
            let i = choose|i: int|
                0 <= i < all.len() && (#[trigger] all[i] matches MessageView::FullCommit(f)
                    && f.commit.id == id);
            if i < head.len() {
                assert(all[i] == head[i]);
            } else {
                assert(all[i] == tail[i - head.len()]);
            }
        }
        if delivers(head, id) {
            let i = choose|i: int|
                0 <= i < head.len() && (#[trigger] head[i] matches MessageView::FullCommit(f)
                    && f.commit.id == id);
            assert(all[i] == head[i]);
        }
        if delivers(tail, id) {
            let i = choose|i: int|
                0 <= i < tail.len() && (#[trigger] tail[i] matches MessageView::FullCommit(f)
                    && f.commit.id == id);
            assert(all[head.len() + i] == tail[i]);
        }
        if msgs.contains(MessageView::AskForCommit(id)) {
            let j = choose|j: int| 0 <= j < msgs.len() && msgs[j] == MessageView::AskForCommit(id);
            if j < init.len() {
                assert(init[j] == msgs[j]);
            }
        }
        if init.contains(MessageView::AskForCommit(id)) {
            let j = choose|j: int| 0 <= j < init.len() && init[j] == MessageView::AskForCommit(id);
            assert(msgs[j] == init[j]);
        }
    }
}

/// Looking up an id after an import finds the import for its own id and
/// what was there before for any other.
proof fn lemma_find_applied(s: Seq<FullCommitView>, full: FullCommitView, x: Seq<char>)
    requires
        unique_ids(s),
    ensures
        find(applied(s, full), x) == (if x == full.commit.id {
            Some(full)
        } else {
            find(s, x)
        }),
{
    lemma_applied_unique(s, full);
    lemma_applied_ids(s, full, x);
    let t = applied(s, full);
    if x != full.commit.id && has_id(s, x) {
        let k = index_of_id(s, x);
        assert(t[k] == s[k]) by {
            if has_id(s, full.commit.id) {
                let p = index_of_id(s, full.commit.id);
                assert(p != k);
            }
        }
        let j = index_of_id(t, x);
        if j != k {
            assert(t[j].commit.id != t[k].commit.id);
        }
    }
}

/// Handling `msgs`, in which every snapshot of commit `x` is `full`, leaves
/// `full` as that commit where some message carried it, and the commit as it
/// was otherwise.
proof fn lemma_after_all_find(
    s: Seq<FullCommitView>,
    msgs: Seq<MessageView>,
    x: Seq<char>,
    full: FullCommitView,
)
    requires
        unique_ids(s),
        forall|i: int|
            0 <= i < msgs.len() && (#[trigger] msgs[i] matches MessageView::FullCommit(f)
                && f.commit.id == x) ==> msgs[i] == MessageView::FullCommit(full),
    ensures
        find(after_all(s, msgs), x) == (if delivers(msgs, x) {
            Some(full)
        } else {
            find(s, x)
        }),
    decreases msgs.len(),
{
    if msgs.len() > 0 {
        let init = msgs.drop_last();
        let last = msgs.last();
        let mid = after_all(s, init);
        assert forall|i: int|
            0 <= i < init.len() && (#[trigger] init[i] matches MessageView::FullCommit(f)
                && f.commit.id == x) implies init[i] == MessageView::FullCommit(full) by {
            assert(init[i] == msgs[i]);
        }
        lemma_after_all_find(s, init, x, full);
        lemma_after_all_ids(s, init, x);
        let last_carries = last matches MessageView::FullCommit(f) && f.commit.id == x;
        assert(delivers(msgs, x) <==> delivers(init, x) || last_carries) by {
            if delivers(init, x) {
                let i = choose|i: int|
                    0 <= i < init.len() && (#[trigger] init[i] matches MessageView::FullCommit(f)
                        && f.commit.id == x);
                assert(msgs[i] == init[i]);
            }
            if last_carries {
                assert(msgs[msgs.len() - 1] == last);
            }
            if delivers(msgs, x) {
                let i = choose|i: int|
                    0 <= i < msgs.len() && (#[trigger] msgs[i] matches MessageView::FullCommit(f)
                        && f.commit.id == x);
                if i < init.len() {
                    assert(init[i] == msgs[i]);
                }
            }
        }
        match last {
            MessageView::FullCommit(f) => {
                lemma_find_applied(mid, f, x);
                if f.commit.id == x {
                    assert(msgs[msgs.len() - 1] == last);
                }
            },
            _ => {},
        }
    }
}

/// Every snapshot of commit `x` that a store answers with, to messages that
/// hold no snapshot, is its own snapshot of `x`.
proof fn lemma_answers_content(s: Seq<FullCommitView>, msgs: Seq<MessageView>, x: Seq<char>)
    requires
        no_snapshots(msgs),
    ensures
        forall|i: int|
            0 <= i < replies_all(s, msgs).len() && (#[trigger] replies_all(s, msgs)[i] matches MessageView::FullCommit(
                f,
            ) && f.commit.id == x) ==> replies_all(s, msgs)[i] == MessageView::FullCommit(
                s[index_of_id(s, x)],
            ),
    decreases msgs.len(),
{
    if msgs.len() > 0 {
        let init = msgs.drop_last();
        let last = msgs.last();
        assert(no_snapshots(init)) by {
            assert forall|i: int| 0 <= i < init.len() implies !(#[trigger] init[i] is FullCommit) by {
                assert(init[i] == msgs[i]);
            }
        }
        lemma_answers_content(s, init, x);
        lemma_answers(s, init, x);
        let head = replies_all(s, init);
        let tail = replies_to(s, last);
        let all = replies_all(s, msgs);
        assert(all == head + tail);
        assert forall|i: int|
            0 <= i < all.len() && (#[trigger] all[i] matches MessageView::FullCommit(f)
                && f.commit.id == x) implies all[i] == MessageView::FullCommit(
            s[index_of_id(s, x)],
        ) by {
            if i < head.len() {
                assert(all[i] == head[i]);
            } else {
                let t = i - head.len();
                assert(all[i] == tail[t]);
                match last {
                    MessageView::AskForCommit(y) => {
                        if has_id(s, y) {
                            let k = index_of_id(s, y);
                            assert(tail[t] == MessageView::FullCommit(s[k]));
                            assert(s[k].commit.id == y);
                        }
                    },
                    MessageView::MyCommits(commits) => {
                        assert(tail[t] is AskForCommit);
                    },
                    _ => {},
                }
            }
        }
    }
}

/// After one pull, `local` holds every commit that either peer held before,
/// and no other, and `remote` is unchanged.
pub proof fn lemma_pull_gathers(local: Seq<FullCommitView>, remote: Seq<FullCommitView>)
    requires
        unique_ids(local),
        unique_ids(remote),
    ensures
        unique_ids(pull(local, remote).0),
        id_set(pull(local, remote).0) == id_set(local).union(id_set(remote)),
        forall|id: Seq<char>|
            #[trigger] find(pull(local, remote).0, id) == (if has_id(local, id) {
                find(local, id)
            } else {
                find(remote, id)
            }),
        pull(local, remote).1 == remote,
{
    reveal(Seq::filter);
    let ask = seq![MessageView::AskForCommits];
    assert(ask.drop_last() =~= Seq::<MessageView>::empty());
    let announce = replies_all(remote, ask);
    assert(after_all(remote, ask.drop_last()) == remote);
    assert(replies_all(remote, ask.drop_last()) == Seq::<MessageView>::empty());
    assert(ask.last() == MessageView::AskForCommits);
    assert(announce =~= seq![MessageView::MyCommits(ids_of(remote))]);
    assert(after_all(remote, ask) == remote);
    assert(announce.drop_last() =~= Seq::<MessageView>::empty());
    assert(after_all(local, announce.drop_last()) == local);
    assert(replies_all(local, announce.drop_last()) == Seq::<MessageView>::empty());
    assert(after_all(local, announce) == local);
    let requests = replies_all(local, announce);
    let pred = |c: Seq<char>| !has_id(local, c);
    let wanted = ids_of(remote).filter(pred);
    assert(requests =~= wanted.map_values(|c: Seq<char>| MessageView::AskForCommit(c)));
    assert(no_snapshots(requests));
    let snapshots = replies_all(remote, requests);
    let (gathered, remote2) = pull(local, remote);
    lemma_answers(remote, requests, Seq::empty());
    assert(remote2 == remote);
    lemma_after_all_ids(local, snapshots, Seq::empty());
    assert forall|id: Seq<char>| #[trigger] has_id(gathered, id) <==> has_id(local, id) || has_id(remote, id) by {
        lemma_answers(remote, requests, id);
        lemma_after_all_ids(local, snapshots, id);
        broadcast use vstd::seq_lib::group_filter_ensures;
        if has_id(remote, id) && !has_id(local, id) {
            let k = index_of_id(remote, id);
            assert(ids_of(remote)[k] == id);
            assert(wanted.contains(id));
            let j = choose|j: int| 0 <= j < wanted.len() && wanted[j] == id;
            assert(requests[j] == MessageView::AskForCommit(id));
        }
        if requests.contains(MessageView::AskForCommit(id)) {
            let j = choose|j: int| 0 <= j < requests.len() && requests[j] == MessageView::AskForCommit(id);
            assert(wanted[j] == id);
            assert(wanted.contains(id));
        }
    }
    assert(id_set(gathered) =~= id_set(local).union(id_set(remote)));
    assert forall|id: Seq<char>|
        #[trigger] find(gathered, id) == (if has_id(local, id) {
            find(local, id)
        } else {
            find(remote, id)
        }) by {
        lemma_answers(remote, requests, id);
        lemma_answers_content(remote, requests, id);
        lemma_after_all_find(local, snapshots, id, remote[index_of_id(remote, id)]);
        broadcast use vstd::seq_lib::group_filter_ensures;
        if has_id(remote, id) && !has_id(local, id) {
            let k = index_of_id(remote, id);
            assert(ids_of(remote)[k] == id);
            assert(wanted.contains(id));
            let j = choose|j: int| 0 <= j < wanted.len() && wanted[j] == id;
            assert(requests[j] == MessageView::AskForCommit(id));
        }
        if requests.contains(MessageView::AskForCommit(id)) {
            let j = choose|j: int| 0 <= j < requests.len() && requests[j] == MessageView::AskForCommit(id);
            assert(wanted[j] == id);
            assert(wanted.contains(id));
        }
    }
}

/// Two peers that pull from each other in turn, `a` first, end up holding the
/// same commits: those that either held before.
pub proof fn lemma_exchange_converges(a: Seq<FullCommitView>, b: Seq<FullCommitView>)
    requires
        unique_ids(a),
        unique_ids(b),
    ensures
        ({
            let (a1, b1) = pull(a, b);
            let (b2, a2) = pull(b1, a1);
            &&& id_set(a2) == id_set(a).union(id_set(b))
            &&& id_set(b2) == id_set(a).union(id_set(b))
        }),
{
    lemma_pull_gathers(a, b);
    let (a1, b1) = pull(a, b);
    lemma_pull_gathers(b1, a1);
    assert(id_set(b).union(id_set(a).union(id_set(b))) =~= id_set(a).union(id_set(b)));
}

/// Every commit that both `a` and `b` hold is the same snapshot in each.
pub open spec fn agree(a: Seq<FullCommitView>, b: Seq<FullCommitView>) -> bool {
    forall|id: Seq<char>| has_id(a, id) && has_id(b, id) ==> #[trigger] find(a, id) == find(b, id)
}

/// Two peers that pull from each other in turn, `a` first, end up holding the
/// same snapshot of every commit, as either held it before, provided that no
/// commit held by both differs between them.
pub proof fn lemma_exchange_agrees(a: Seq<FullCommitView>, b: Seq<FullCommitView>)
    requires
        unique_ids(a),
        unique_ids(b),
        agree(a, b),
    ensures
        ({
            let (a1, b1) = pull(a, b);
            let (b2, a2) = pull(b1, a1);
            forall|id: Seq<char>|
                #[trigger] find(a2, id) == find(b2, id) && find(a2, id) == (if has_id(a, id) {
                    find(a, id)
                } else {
                    find(b, id)
                })
        }),
{
    lemma_pull_gathers(a, b);
    let (a1, b1) = pull(a, b);
    lemma_pull_gathers(b1, a1);
    let (b2, a2) = pull(b1, a1);
    assert forall|id: Seq<char>|
        #[trigger] find(a2, id) == find(b2, id) && find(a2, id) == (if has_id(a, id) {
            find(a, id)
        } else {
            find(b, id)
        }) by {
        assert(find(a1, id) == (if has_id(a, id) { find(a, id) } else { find(b, id) }));
        assert(find(b2, id) == (if has_id(b, id) { find(b, id) } else { find(a1, id) }));
        if has_id(a, id) && has_id(b, id) {
            assert(find(a, id) == find(b, id));
        }
    }
}

/// The answer of a peer whose store is `store` to `msg`.
pub fn respond(store: &CommitStore, msg: &SyncMessage) -> (r: Vec<SyncMessage>)
    requires
        store.wf(),
    ensures
        views(r@) == replies_to(store@, msg@),
{
    let mut out: Vec<SyncMessage> = Vec::new();
    match msg {
        SyncMessage::AskForCommits => {
            out.push(SyncMessage::MyCommits { commits: store.list_commit_ids() });
            assert(views(out@) =~= replies_to(store@, msg@));
        },
        SyncMessage::MyCommits { commits } => {
            let ghost cs = commits@.map_values(|c: String| c@);
            let ghost pred = |c: Seq<char>| !has_id(store@, c);
            let mut i: usize = 0;
            while i < commits.len()
                invariant
                    i <= commits@.len(),
                    store.wf(),
                    cs == commits@.map_values(|c: String| c@),
                    pred == (|c: Seq<char>| !has_id(store@, c)),
                    views(out@) == cs.take(i as int).filter(pred).map_values(
                        |c: Seq<char>| MessageView::AskForCommit(c),
                    ),
                decreases commits@.len() - i,
            {
                let ghost t = cs.take(i as int);
                let ghost t1 = cs.take(i + 1);
                let ghost before = views(out@);
                assert(t1.drop_last() =~= t);
                assert(t1.last() == commits@[i as int]@);
                proof {
                    reveal(Seq::filter);
                }
                assert(t1.filter(pred) == (if pred(t1.last()) {
                    t.filter(pred).push(t1.last())
                } else {
                    t.filter(pred)
                }));
                if !store.contains(&commits[i]) {
                    let c = commits[i].clone();
                    assert(pred(c@));
                    out.push(SyncMessage::AskForCommit { commit_id: c });
                    assert(views(out@) =~= before.push(MessageView::AskForCommit(c@)));
                } else {
                    assert(views(out@) =~= before);
                }
                i = i + 1;
                assert(views(out@) =~= cs.take(i as int).filter(pred).map_values(
                    |c: Seq<char>| MessageView::AskForCommit(c),
                ));
            }
            assert(cs.take(i as int) =~= cs);
            assert(views(out@) =~= replies_to(store@, msg@));
        },
        SyncMessage::AskForCommit { commit_id } => {
            match store.materialize(commit_id) {
                Ok(full) => {
                    out.push(SyncMessage::FullCommit(full));
                    assert(views(out@) =~= replies_to(store@, msg@));
                },
                Err(_) => {
                    assert(views(out@) =~= replies_to(store@, msg@));
                },
            }
        },
        SyncMessage::FullCommit(_) => {
            assert(views(out@) =~= replies_to(store@, msg@));
        },
    }
    out
}

/// Handles one inbound message: imports a full snapshot, and returns the
/// messages to send in answer.
pub fn handle_message(store: &mut CommitStore, msg: SyncMessage) -> (r: Vec<SyncMessage>)
    requires
        old(store).wf(),
    ensures
        final(store).wf(),
        final(store)@ == after_message(old(store)@, msg@),
        views(r@) == replies_to(old(store)@, msg@),
{
    let out = respond(store, &msg);
    match msg {
        SyncMessage::FullCommit(full) => {
            store.apply_remote(full);
        },
        _ => {},
    }
    out
}

} // verus!
