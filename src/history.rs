//! The order of commits by timestamp: the newest is the current one.
use crate::commit::{Commit, CommitView};
use vstd::prelude::*;

verus! {

/// `a` comes before `b` in lexicographic order of code points.
pub open spec fn lex_lt(a: Seq<char>, b: Seq<char>) -> bool
    decreases a.len(),
{
    if a.len() == 0 {
        b.len() > 0
    } else if b.len() == 0 {
        false
    } else if a[0] != b[0] {
        a[0] < b[0]
    } else {
        lex_lt(a.drop_first(), b.drop_first())
    }
}

proof fn lemma_lex_irreflexive(a: Seq<char>)
    ensures
        !lex_lt(a, a),
    decreases a.len(),
{
    if a.len() > 0 {
        lemma_lex_irreflexive(a.drop_first());
    }
}

proof fn lemma_lex_asymmetric(a: Seq<char>, b: Seq<char>)
    ensures
        lex_lt(a, b) ==> !lex_lt(b, a),
    decreases a.len(),
{
    if a.len() > 0 && b.len() > 0 {
        lemma_lex_asymmetric(a.drop_first(), b.drop_first());
    }
}

proof fn lemma_lex_transitive(a: Seq<char>, b: Seq<char>, c: Seq<char>)
    ensures
        lex_lt(a, b) && lex_lt(b, c) ==> lex_lt(a, c),
    decreases a.len(),
{
    if a.len() > 0 && b.len() > 0 && c.len() > 0 {
        lemma_lex_transitive(a.drop_first(), b.drop_first(), c.drop_first());
    }
}

proof fn lemma_lex_total(a: Seq<char>, b: Seq<char>)
    ensures
        a != b ==> lex_lt(a, b) || lex_lt(b, a),
    decreases a.len(),
{
    if a.len() > 0 && b.len() > 0 {
        lemma_lex_total(a.drop_first(), b.drop_first());
        if a[0] == b[0] && a.drop_first() == b.drop_first() {
            assert(a =~= seq![a[0]] + a.drop_first());
            assert(b =~= seq![b[0]] + b.drop_first());
        }
    } else if a.len() == 0 && b.len() == 0 {
        assert(a =~= b);
    }
}

/// Comparing the rest after a common prefix of length `i` decides.
proof fn lemma_lex_skip(a: Seq<char>, b: Seq<char>, i: int)
    requires
        0 <= i <= a.len(),
        i <= b.len(),
        a.take(i) == b.take(i),
    ensures
        lex_lt(a, b) == lex_lt(a.skip(i), b.skip(i)),
    decreases i,
{
    if i > 0 {
        assert(a[0] == a.take(i)[0] && b[0] == b.take(i)[0]);
        assert(a.drop_first().take(i - 1) =~= a.take(i).drop_first());
        assert(b.drop_first().take(i - 1) =~= b.take(i).drop_first());
        lemma_lex_skip(a.drop_first(), b.drop_first(), i - 1);
        assert(a.drop_first().skip(i - 1) =~= a.skip(i));
        assert(b.drop_first().skip(i - 1) =~= b.skip(i));
    } else {
        assert(a.skip(0) =~= a);
        assert(b.skip(0) =~= b);
    }
}

/// Whether the timestamp `a` sorts before `b`.
pub fn timestamp_before(a: &String, b: &String) -> (r: bool)
    ensures
        r == lex_lt(a@, b@),
{
    let la = a.as_str().unicode_len();
    let lb = b.as_str().unicode_len();
    let mut i: usize = 0;
    while i < la && i < lb
        invariant
            la == a@.len(),
            lb == b@.len(),
            i <= la,
            i <= lb,
            a@.take(i as int) == b@.take(i as int),
        decreases la - i,
    {
        let ca = a.as_str().get_char(i);
        let cb = b.as_str().get_char(i);
        if ca != cb {
            proof {
                lemma_lex_skip(a@, b@, i as int);
                assert(a@.skip(i as int)[0] == ca);
                assert(b@.skip(i as int)[0] == cb);
            }
            return ca < cb;
        }
        assert(a@.take(i + 1) =~= a@.take(i as int).push(ca));
        assert(b@.take(i + 1) =~= b@.take(i as int).push(cb));
        i = i + 1;
    }
    proof {
        lemma_lex_skip(a@, b@, i as int);
    }
    i < lb && i == la
}

/// `i` is the first position of a commit with the greatest timestamp.
pub open spec fn is_latest(s: Seq<CommitView>, i: int) -> bool {
    &&& 0 <= i < s.len()
    &&& forall|j: int| 0 <= j < s.len() ==> !lex_lt(s[i].timestamp, #[trigger] s[j].timestamp)
    &&& forall|j: int| 0 <= j < i ==> lex_lt(#[trigger] s[j].timestamp, s[i].timestamp)
}

/// The position of the current commit of a non-empty `s`.
pub open spec fn latest_index(s: Seq<CommitView>) -> int {
    choose|i: int| is_latest(s, i)
}

/// The commits of `s` newest first; of those with equal timestamps, the
/// earlier in `s` comes first.
pub open spec fn newest_order(s: Seq<CommitView>) -> Seq<CommitView>
    decreases s.len(),
{
    if s.len() == 0 {
        Seq::empty()
    } else {
        let i = latest_index(s);
        if 0 <= i < s.len() {
            seq![s[i]] + newest_order(s.remove(i))
        } else {
            Seq::empty()
        }
    }
}

proof fn lemma_latest_unique(s: Seq<CommitView>, i: int, k: int)
    requires
        is_latest(s, i),
        is_latest(s, k),
    ensures
        i == k,
{
    if i < k {
        assert(lex_lt(s[i].timestamp, s[k].timestamp));
    } else if k < i {
        assert(lex_lt(s[k].timestamp, s[i].timestamp));
    }
}

/// The views of a list of commits.
pub open spec fn commit_views(v: Seq<Commit>) -> Seq<CommitView> {
    v.map_values(|c: Commit| c@)
}

/// The position of the current commit: the first of those with the greatest
/// timestamp. `None` for no commits.
pub fn latest_commit(commits: &Vec<Commit>) -> (r: Option<usize>)
    ensures
        r is None <==> commits@.len() == 0,
        r matches Some(i) ==> i == latest_index(commit_views(commits@)) && is_latest(
            commit_views(commits@),
            i as int,
        ),
{
    let ghost s = commit_views(commits@);
    if commits.len() == 0 {
        return None;
    }
    let mut best: usize = 0;
    let mut k: usize = 1;
    proof {
        lemma_lex_irreflexive(s[0].timestamp);
    }
    while k < commits.len()
        invariant
            s == commit_views(commits@),
            1 <= k <= commits@.len(),
            best < k,
            forall|j: int| 0 <= j < k ==> !lex_lt(s[best as int].timestamp, #[trigger] s[j].timestamp),
            forall|j: int| 0 <= j < best ==> lex_lt(#[trigger] s[j].timestamp, s[best as int].timestamp),
        decreases commits@.len() - k,
    {
        if timestamp_before(&commits[best].timestamp, &commits[k].timestamp) {
            proof {
                let tb = s[best as int].timestamp;
                let tk = s[k as int].timestamp;
                assert forall|j: int| 0 <= j < k implies lex_lt(#[trigger] s[j].timestamp, tk) by {
                    lemma_lex_total(s[j].timestamp, tb);
                    lemma_lex_transitive(s[j].timestamp, tb, tk);
                }
                assert forall|j: int| 0 <= j < k + 1 implies !lex_lt(tk, #[trigger] s[j].timestamp) by {
                    lemma_lex_asymmetric(s[j].timestamp, tk);
                    lemma_lex_irreflexive(tk);
                }
            }
            best = k;
        }
        k = k + 1;
    }
    proof {
        let i = latest_index(s);
        assert(is_latest(s, best as int));
        lemma_latest_unique(s, i, best as int);
    }
    Some(best)
}

/// The commits newest first; of those with equal timestamps, the earlier in
/// `commits` comes first.
pub fn newest_first(commits: Vec<Commit>) -> (r: Vec<Commit>)
    ensures
        commit_views(r@) == newest_order(commit_views(commits@)),
{
    let ghost s = commit_views(commits@);
    let mut rest = commits;
    let mut out: Vec<Commit> = Vec::new();
    while rest.len() > 0
        invariant
            commit_views(out@) + newest_order(commit_views(rest@)) == newest_order(s),
        decreases rest@.len(),
    {
        let ghost before = rest@;
        let ghost pre_out = out@;
        let i = match latest_commit(&rest) {
            Some(i) => i,
            None => 0,
        };
        let c = rest.remove(i);
        out.push(c);
        proof {
            let v = commit_views(before);
            assert(commit_views(rest@) =~= v.remove(i as int));
            assert(commit_views(out@) =~= commit_views(pre_out).push(c@));
            assert(newest_order(v) == seq![v[i as int]] + newest_order(v.remove(i as int)));
            assert(commit_views(out@) + newest_order(commit_views(rest@)) =~= commit_views(pre_out)
                + newest_order(v));
        }
    }
    assert(commit_views(rest@) =~= Seq::<CommitView>::empty());
    assert(commit_views(out@) + Seq::<CommitView>::empty() =~= commit_views(out@));
    out
}

} // verus!
