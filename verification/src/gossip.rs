//! The decisions of a sync session (anti-entropy): how a session opens,
//! which documents a node pulls when it sees a peer's digest, and how it
//! answers a pull. Sending, receiving and storing are left to the caller.
use vstd::prelude::*;
use crate::assoc::keys_unique;
use crate::wire::{DocId, Msg};

verus! {

/// The version that a digest records for `doc`: that of its first entry
/// for `doc`, or 0 when it has none.
pub open spec fn version_in(d: Seq<(String, u64)>, doc: Seq<char>) -> u64
    decreases d.len(),
{
    if d.len() == 0 {
        0
    } else if d[0].0@ == doc {
        d[0].1
    } else {
        version_in(d.drop_first(), doc)
    }
}

/// The documents to pull from a peer whose digest is `remote`: in the
/// peer's order, each one whose remote version is newer than the local one.
pub open spec fn pulls(local: Seq<(String, u64)>, remote: Seq<(String, u64)>) -> Seq<Seq<char>>
    decreases remote.len(),
{
    if remote.len() == 0 {
        seq![]
    } else {
        let p = pulls(local, remote.drop_last());
        if remote.last().1 > version_in(local, remote.last().0@) {
            p.push(remote.last().0@)
        } else {
            p
        }
    }
}

/// The messages that open a session: a greeting, then the local digest.
pub fn opening(node_id: &str, digest: Vec<(DocId, u64)>) -> (r: Vec<Msg>)
    ensures
        r@.len() == 2,
        r@[0] matches Msg::Hello { node_id: n } && n@ == node_id@,
        r@[1] == (Msg::StateDigest { counts: digest }),
{
    let hello = Msg::Hello { node_id: node_id.to_owned() };
    vec![hello, Msg::StateDigest { counts: digest }]
}

/// The version that the local digest records for `doc`.
pub fn local_version(local: &Vec<(DocId, u64)>, doc: &DocId) -> (r: u64)
    ensures
        r == version_in(local@, doc@),
{
    let mut i: usize = 0;
    proof {
        assert(local@.skip(0) =~= local@);
    }
    while i < local.len()
        invariant
            0 <= i <= local@.len(),
            version_in(local@, doc@) == version_in(local@.skip(i as int), doc@),
        decreases local@.len() - i,
    {
        proof {
            assert(local@.skip(i as int)[0] == local@[i as int]);
            assert(local@.skip(i as int).drop_first() =~= local@.skip(i + 1));
        }
        if local[i].0 == *doc {
            return local[i].1;
        }
        i = i + 1;
    }
    0
}

/// The documents to pull from a peer that sent the digest `remote`.
pub fn docs_to_pull(local: &Vec<(DocId, u64)>, remote: &Vec<(DocId, u64)>) -> (r: Vec<DocId>)
    ensures
        r@.len() == pulls(local@, remote@).len(),
        forall|i: int| 0 <= i < r@.len() ==> #[trigger] r@[i]@ == pulls(local@, remote@)[i],
{
    let mut out: Vec<DocId> = Vec::new();
    let mut i: usize = 0;
    while i < remote.len()
        invariant
            0 <= i <= remote@.len(),
            out@.len() == pulls(local@, remote@.take(i as int)).len(),
            forall|j: int| 0 <= j < out@.len() ==> #[trigger] out@[j]@ == pulls(local@, remote@.take(i as int))[j],
        decreases remote@.len() - i,
    {
        let ghost before = out@;
        proof {
            assert(remote@.take(i + 1).drop_last() =~= remote@.take(i as int));
            assert(remote@.take(i + 1).last() == remote@[i as int]);
        }
        let theirs = remote[i].1;
        let mine = local_version(local, &remote[i].0);
        if theirs > mine {
            out.push(remote[i].0.clone());
            proof {
                assert forall|j: int| 0 <= j < out@.len() implies #[trigger] out@[j]@ == pulls(local@, remote@.take(i + 1))[j] by {
                    if j < before.len() {
                        assert(out@[j] == before[j]);
                    }
                }
            }
        }
        i = i + 1;
    }
    proof {
        assert(remote@.take(remote@.len() as int) =~= remote@);
    }
    out
}

/// The answer to a pull of `doc`: its stored state, when the node has it.
pub fn answer_pull(doc: DocId, stored: Option<Vec<u8>>) -> (r: Option<Msg>)
    ensures
        stored is None ==> r is None,
        stored matches Some(b) ==> r == Some(Msg::Delta { doc: doc, bytes: b }),
{
    match stored {
        Some(bytes) => Some(Msg::Delta { doc, bytes }),
        None => None,
    }
}

/// Where a session stands between two events.
#[derive(Debug)]
pub enum SessionState {
    /// Waiting for the peer's next message.
    Ready,
    /// The peer sent its digest; the local digest is needed to compare.
    Comparing { remote: Vec<(DocId, u64)> },
    /// The peer asked for a document; its stored state is needed to answer.
    Serving { doc: DocId },
}

/// What happens to a session: a message arrives, or what the session asked
/// to be read has been read.
#[derive(Debug)]
pub enum SessionEvent {
    /// A message from the peer.
    Received(Msg),
    /// The local digest, as asked by `ReadDigest`.
    LocalDigest(Vec<(DocId, u64)>),
    /// The stored state of the document asked by `ReadDoc`, if any.
    StoredDoc(Option<Vec<u8>>),
}

/// What the caller does next.
#[derive(Debug)]
pub enum SessionAction {
    /// The peer introduced itself: nothing to answer.
    Greeted(String),
    /// Read the local digest and report it with `LocalDigest`.
    ReadDigest,
    /// Read the stored state of this document and report it with `StoredDoc`.
    ReadDoc(DocId),
    /// Send these messages to the peer, in order.
    Send(Vec<Msg>),
    /// Store this state of this document.
    Store { doc: DocId, bytes: Vec<u8> },
    /// The event does not fit the session's state; nothing happens.
    Ignore,
}

/// `msgs` ask, in order, for exactly the documents `docs`.
pub open spec fn pull_requests(msgs: Seq<Msg>, docs: Seq<Seq<char>>) -> bool {
    &&& msgs.len() == docs.len()
    &&& forall|i: int| 0 <= i < msgs.len() ==> (#[trigger] msgs[i] matches Msg::Pull { doc } && doc@ == docs[i])
}

/// The session's decision on one event: its next state and what the caller does.
pub fn session_step(state: SessionState, event: SessionEvent) -> (r: (SessionState, SessionAction))
    ensures
        match (state, event) {
            (SessionState::Ready, SessionEvent::Received(Msg::Hello { node_id })) =>
                r.0 is Ready && r.1 == SessionAction::Greeted(node_id),
            (SessionState::Ready, SessionEvent::Received(Msg::StateDigest { counts })) =>
                r.0 == (SessionState::Comparing { remote: counts }) && r.1 is ReadDigest,
            (SessionState::Ready, SessionEvent::Received(Msg::Pull { doc })) =>
                r.0 == (SessionState::Serving { doc: doc }) && r.1 == SessionAction::ReadDoc(doc),
            (SessionState::Ready, SessionEvent::Received(Msg::Delta { doc, bytes })) =>
                r.0 is Ready && r.1 == (SessionAction::Store { doc: doc, bytes: bytes }),
            (SessionState::Comparing { remote }, SessionEvent::LocalDigest(local)) =>
                r.0 is Ready && (r.1 matches SessionAction::Send(m) && pull_requests(m@, pulls(local@, remote@))),
            (SessionState::Serving { doc }, SessionEvent::StoredDoc(Some(b))) =>
                r.0 is Ready && (r.1 matches SessionAction::Send(m) && m@ == seq![Msg::Delta { doc: doc, bytes: b }]),
            (SessionState::Serving { doc }, SessionEvent::StoredDoc(None)) =>
                r.0 is Ready && (r.1 matches SessionAction::Send(m) && m@.len() == 0),
            (st, _) => r.0 == st && r.1 is Ignore,
        },
{
    match state {
        SessionState::Ready => match event {
            SessionEvent::Received(msg) => match msg {
                Msg::Hello { node_id } => (SessionState::Ready, SessionAction::Greeted(node_id)),
                Msg::StateDigest { counts } => (SessionState::Comparing { remote: counts }, SessionAction::ReadDigest),
                Msg::Pull { doc } => {
                    let asked = doc.clone();
                    (SessionState::Serving { doc }, SessionAction::ReadDoc(asked))
                },
                Msg::Delta { doc, bytes } => (SessionState::Ready, SessionAction::Store { doc, bytes }),
            },
            _ => (SessionState::Ready, SessionAction::Ignore),
        },
        SessionState::Comparing { remote } => match event {
            SessionEvent::LocalDigest(local) => {
                let docs = docs_to_pull(&local, &remote);
                let ghost want = pulls(local@, remote@);
                let mut msgs: Vec<Msg> = Vec::new();
                let mut i: usize = 0;
                while i < docs.len()
                    invariant
                        docs@.len() == want.len(),
                        forall|j: int| 0 <= j < docs@.len() ==> #[trigger] docs@[j]@ == want[j],
                        0 <= i <= docs@.len(),
                        pull_requests(msgs@, want.take(i as int)),
                    decreases docs@.len() - i,
                {
                    msgs.push(Msg::Pull { doc: docs[i].clone() });
                    proof {
                        let m = msgs@;
                        let w = want.take(i + 1);
                        assert forall|j: int| 0 <= j < m.len() implies (#[trigger] m[j] matches Msg::Pull { doc } && doc@ == w[j]) by {
                            if j < i {
                                assert(want.take(i as int)[j] == w[j]);
                            }
                        }
                    }
                    i = i + 1;
                }
                proof {
                    assert(want.take(docs@.len() as int) =~= want);
                }
                (SessionState::Ready, SessionAction::Send(msgs))
            },
            _ => (SessionState::Comparing { remote }, SessionAction::Ignore),
        },
        SessionState::Serving { doc } => match event {
            SessionEvent::StoredDoc(stored) => match answer_pull(doc, stored) {
                Some(m) => (SessionState::Ready, SessionAction::Send(vec![m])),
                None => (SessionState::Ready, SessionAction::Send(Vec::new())),
            },
            _ => (SessionState::Serving { doc }, SessionAction::Ignore),
        },
    }
}

proof fn lemma_version_in_unique(d: Seq<(String, u64)>, i: int)
    requires
        keys_unique(d),
        0 <= i < d.len(),
    ensures
        version_in(d, d[i].0@) == d[i].1,
    decreases i,
{
    if i > 0 {
        let t = d.drop_first();
        assert(d[0].0@ != d[i].0@);
        assert(t[i - 1] == d[i]);
        assert(keys_unique(t)) by {
            assert forall|a: int, b: int| 0 <= a < t.len() && 0 <= b < t.len() && a != b implies t[a].0@ != t[b].0@ by {
                assert(t[a] == d[a + 1] && t[b] == d[b + 1]);
            }
        }
        lemma_version_in_unique(t, i - 1);
    }
}

/// A document is pulled exactly when the peer's digest has an entry for it
/// whose version is newer than the local one.
pub proof fn law_pulls_are_newer(local: Seq<(String, u64)>, remote: Seq<(String, u64)>, doc: Seq<char>)
    ensures
        pulls(local, remote).contains(doc) <==> exists|i: int|
            0 <= i < remote.len() && #[trigger] remote[i].0@ == doc && remote[i].1 > version_in(local, doc),
    decreases remote.len(),
{
    if remote.len() > 0 {
        let init = remote.drop_last();
        let n = remote.len() - 1;
        law_pulls_are_newer(local, init, doc);
        let p = pulls(local, init);
        let x = remote[n];
        let here = x.0@ == doc && x.1 > version_in(local, doc);
        let in_init = exists|i: int|
            0 <= i < init.len() && #[trigger] init[i].0@ == doc && init[i].1 > version_in(local, doc);
        let in_remote = exists|i: int|
            0 <= i < remote.len() && #[trigger] remote[i].0@ == doc && remote[i].1 > version_in(local, doc);
        assert(in_remote <==> in_init || here) by {
            if in_remote {
                let i = choose|i: int|
                    0 <= i < remote.len() && #[trigger] remote[i].0@ == doc && remote[i].1 > version_in(local, doc);
                if i < n {
                    assert(init[i] == remote[i]);
                }
            }
            if in_init {
                let i = choose|i: int|
                    0 <= i < init.len() && #[trigger] init[i].0@ == doc && init[i].1 > version_in(local, doc);
                assert(remote[i] == init[i]);
            }
            if here {
                assert(remote[n].0@ == doc);
            }
        }
        assert(remote.last() == x);
        if x.1 > version_in(local, x.0@) {
            let q = p.push(x.0@);
            assert(pulls(local, remote) == q);
            assert(q.contains(doc) <==> p.contains(doc) || x.0@ == doc) by {
                if q.contains(doc) {
                    let k = choose|k: int| 0 <= k < q.len() && q[k] == doc;
                    if k < p.len() {
                        assert(p[k] == doc);
                    }
                }
                if p.contains(doc) {
                    let k = choose|k: int| 0 <= k < p.len() && p[k] == doc;
                    assert(q[k] == doc);
                }
                if x.0@ == doc {
                    assert(q[p.len() as int] == doc);
                }
            }
        } else {
            assert(pulls(local, remote) == p);
        }
    }
}

/// A digest without repeated documents gives a pull list without repeated
/// documents: each document is pulled at most once.
pub proof fn law_pulls_no_repeats(local: Seq<(String, u64)>, remote: Seq<(String, u64)>)
    requires
        keys_unique(remote),
    ensures
        pulls(local, remote).no_duplicates(),
    decreases remote.len(),
{
    if remote.len() > 0 {
        let init = remote.drop_last();
        let n = remote.len() - 1;
        assert(keys_unique(init)) by {
            assert forall|a: int, b: int| 0 <= a < init.len() && 0 <= b < init.len() && a != b implies init[a].0@ != init[b].0@ by {
                assert(init[a] == remote[a] && init[b] == remote[b]);
            }
        }
        law_pulls_no_repeats(local, init);
        let p = pulls(local, init);
        let x = remote[n];
        assert(remote.last() == x);
        if x.1 > version_in(local, x.0@) {
            law_pulls_are_newer(local, init, x.0@);
            assert(!p.contains(x.0@)) by {
                if p.contains(x.0@) {
                    let i = choose|i: int| 0 <= i < init.len() && #[trigger] init[i].0@ == x.0@ && init[i].1 > version_in(local, x.0@);
                    assert(remote[i] == init[i]);
                }
            }
            let q = p.push(x.0@);
            assert(pulls(local, remote) == q);
            assert forall|i: int, j: int| 0 <= i < q.len() && 0 <= j < q.len() && i != j implies q[i] != q[j] by {
                if i < p.len() && j < p.len() {
                } else if i < p.len() {
                    assert(p.contains(q[i]));
                } else {
                    assert(p.contains(q[j]));
                }
            }
        } else {
            assert(pulls(local, remote) == p);
        }
    }
}

/// A node pulls nothing from a peer whose digest equals its own.
pub proof fn law_no_pulls_from_equal_digest(d: Seq<(String, u64)>)
    requires
        keys_unique(d),
    ensures
        pulls(d, d).len() == 0,
{
    if pulls(d, d).len() > 0 {
        let doc = pulls(d, d)[0];
        assert(pulls(d, d).contains(doc));
        law_pulls_are_newer(d, d, doc);
        let i = choose|i: int| 0 <= i < d.len() && #[trigger] d[i].0@ == doc && d[i].1 > version_in(d, doc);
        lemma_version_in_unique(d, i);
    }
}

} // verus!
