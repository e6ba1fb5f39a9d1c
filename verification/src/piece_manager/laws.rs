use vstd::prelude::*;

use super::model::{
    accepts, add_have, all_downloaded, askable, eligible, forget_peer, lemma_ask, lemma_ask_n,
    lemma_failure_unask, lemma_forget_peer, lemma_have, lemma_reassign, lemma_reassign_unask,
    lemma_wf_askable, live, peers_of, reassign_upto, spec_ask, spec_ask_n, spec_connection_failed,
    spec_handle, unask, wf, PieceManagerModel, Request,
};
use super::types::PieceManagerMessage;

verus! {

/// Every request of `reqs` is recorded in `s`: its piece is asked of its peer, which is
/// listed for the piece.
pub open spec fn recorded(s: PieceManagerModel, reqs: Seq<Request>) -> bool {
    forall|j: int|
        0 <= j < reqs.len() ==> {
            let (peer, p) = #[trigger] reqs[j];
            &&& (p as int) < s.allowed.len()
            &&& s.asked_to[p as int] == Some(peer)
            &&& peers_of(s, p as int).contains(peer)
        }
}

proof fn lemma_ask_recorded(s: PieceManagerModel, reqs: Seq<Request>)
    requires
        askable(s),
        recorded(s, reqs),
    ensures
        recorded(spec_ask(s).0, reqs + spec_ask(s).1),
{
    lemma_ask(s);
    let t = spec_ask(s).0;
    let r = spec_ask(s).1;
    let all = reqs + r;
    assert forall|j: int| 0 <= j < all.len() implies {
        let (peer, p) = #[trigger] all[j];
        &&& (p as int) < t.allowed.len()
        &&& t.asked_to[p as int] == Some(peer)
        &&& peers_of(t, p as int).contains(peer)
    } by {
        if j < reqs.len() {
            let (peer, p) = reqs[j];
            assert(all[j] == reqs[j]);
            if r.len() == 1 {
                assert(eligible(s, r[0].1 as int));
                assert(s.asked_to[p as int] is Some);
                assert(p != r[0].1);
            }
            assert(t.asked_to[p as int] == s.asked_to[p as int]);
            assert(peers_of(t, p as int) == peers_of(s, p as int));
        } else {
            assert(all[j] == r[j - reqs.len()]);
        }
    }
}

proof fn lemma_ask_n_recorded(s: PieceManagerModel, k: nat)
    requires
        askable(s),
    ensures
        recorded(spec_ask_n(s, k).0, spec_ask_n(s, k).1),
    decreases k,
{
    if k > 0 {
        lemma_ask_n_recorded(s, (k - 1) as nat);
        lemma_ask_n(s, (k - 1) as nat);
        lemma_ask_recorded(spec_ask_n(s, (k - 1) as nat).0, spec_ask_n(s, (k - 1) as nat).1);
    }
}

proof fn lemma_reassign_recorded(
    asked: Seq<Option<Seq<u8>>>,
    peer: Seq<u8>,
    s: PieceManagerModel,
    i: int,
)
    requires
        wf(s),
        s.asked_to == asked,
        forall|q: int, j: int|
            live(s, q) && 0 <= j < peers_of(s, q).len() ==> #[trigger] peers_of(s, q)[j] != peer,
        0 <= i <= s.allowed.len(),
    ensures
        recorded(reassign_upto(asked, peer, s, i).0, reassign_upto(asked, peer, s, i).1),
    decreases i,
{
    if i > 0 {
        lemma_reassign_recorded(asked, peer, s, i - 1);
        let (t, r) = reassign_upto(asked, peer, s, i - 1);
        if asked[i - 1] == Some(peer) {
            lemma_reassign_unask(asked, peer, s, i - 1);
            lemma_reassign(asked, peer, s, i - 1);
            let u = unask(t, i - 1);
            assert(recorded(u, r)) by {
                assert forall|j: int| 0 <= j < r.len() implies {
                    let (x, p) = #[trigger] r[j];
                    &&& (p as int) < u.allowed.len()
                    &&& u.asked_to[p as int] == Some(x)
                    &&& peers_of(u, p as int).contains(x)
                } by {
                    let (x, p) = r[j];
                    assert(peers_of(t, p as int).contains(x));
                    assert(peers_of(t, p as int) == peers_of(s, p as int));
                    assert(x != peer);
                    assert(p as int != i - 1);
                    assert(peers_of(u, p as int) == peers_of(t, p as int));
                }
            }
            lemma_ask_recorded(u, r);
        }
    }
}

/// Law: whatever the piece manager requests is recorded in its next state: each requested
/// piece is then asked of the requested peer, and that peer is listed for the piece.
pub proof fn lemma_requests_recorded(s: PieceManagerModel, msg: PieceManagerMessage)
    requires
        wf(s),
        accepts(s, msg),
    ensures
        recorded(spec_handle(s, msg).0, spec_handle(s, msg).1),
{
    lemma_wf_askable(s);
    match msg {
        PieceManagerMessage::FinishedEstablishingConnections(_) => {
            let t = PieceManagerModel { is_downloading: true, ..s };
            assert forall|q: int, i: int| live(t, q) && 0 <= i < peers_of(t, q).len() implies t.counts.contains_key(
                #[trigger] peers_of(t, q)[i],
            ) by {
                assert(peers_of(t, q) == peers_of(s, q));
            }
            lemma_ask_n_recorded(t, super::model::first_pieces(s));
        },
        PieceManagerMessage::Have(peer, p) => {
            lemma_have(s, peer@, p as int);
            if live(s, p as int) && s.is_downloading && s.without_peer[p as int] {
                let t = add_have(s, peer@, p as int);
                lemma_wf_askable(t);
                lemma_ask_recorded(t, Seq::empty());
                assert(Seq::<Request>::empty() + spec_ask(t).1 =~= spec_ask(t).1);
            }
        },
        PieceManagerMessage::ReaskedTracker => {
            lemma_ask_n_recorded(
                s,
                super::model::waiting_without_peer(s, s.allowed.len() as int),
            );
        },
        PieceManagerMessage::FailedDownload(p, peer) => {
            lemma_failure_unask(s, p as int, peer@);
            let u = unask(s, p as int);
            lemma_ask_recorded(u, Seq::empty());
            assert(Seq::<Request>::empty() + spec_ask(u).1 =~= spec_ask(u).1);
            let v = spec_ask(u).0;
            let w = spec_handle(s, msg).0;
            assert(w.asked_to == v.asked_to && w.allowed == v.allowed);
        },
        PieceManagerMessage::FailedConnection(peer) => {
            let f = forget_peer(s, peer@);
            lemma_forget_peer(s, peer@);
            lemma_reassign_recorded(s.asked_to, peer@, f, s.allowed.len() as int);
        },
        _ => {},
    }
}

/// Law: a downloaded piece stays downloaded, whatever message comes, and the number of
/// pieces does not change.
pub proof fn lemma_downloaded_stays(s: PieceManagerModel, msg: PieceManagerMessage, p: int)
    requires
        wf(s),
        accepts(s, msg),
        0 <= p < s.allowed.len(),
        !live(s, p),
    ensures
        spec_handle(s, msg).0.allowed.len() == s.allowed.len(),
        !live(spec_handle(s, msg).0, p),
{
    lemma_wf_askable(s);
    match msg {
        PieceManagerMessage::FinishedEstablishingConnections(_) => {
            let t = PieceManagerModel { is_downloading: true, ..s };
            assert forall|q: int, i: int| live(t, q) && 0 <= i < peers_of(t, q).len() implies t.counts.contains_key(
                #[trigger] peers_of(t, q)[i],
            ) by {
                assert(peers_of(t, q) == peers_of(s, q));
            }
            lemma_ask_n(t, super::model::first_pieces(s));
        },
        PieceManagerMessage::Have(peer, q) => {
            lemma_have(s, peer@, q as int);
            if live(s, q as int) && s.is_downloading && s.without_peer[q as int] {
                let t = add_have(s, peer@, q as int);
                lemma_wf_askable(t);
                lemma_ask(t);
            }
        },
        PieceManagerMessage::ReaskedTracker => {
            lemma_ask_n(s, super::model::waiting_without_peer(s, s.allowed.len() as int));
        },
        PieceManagerMessage::FailedDownload(q, peer) => {
            lemma_failure_unask(s, q as int, peer@);
            lemma_ask(unask(s, q as int));
        },
        PieceManagerMessage::FailedConnection(peer) => {
            let f = forget_peer(s, peer@);
            lemma_forget_peer(s, peer@);
            lemma_reassign(s.asked_to, peer@, f, s.allowed.len() as int);
        },
        _ => {},
    }
}

/// Law: after a successful download of a piece, that piece is downloaded.
pub proof fn lemma_success_downloads(s: PieceManagerModel, p: u32, peer: Vec<u8>)
    requires
        wf(s),
        accepts(s, PieceManagerMessage::SuccessfulDownload(p, peer)),
    ensures
        !live(spec_handle(s, PieceManagerMessage::SuccessfulDownload(p, peer)).0, p as int),
{
}

/// Law: but for the message that hands over the manager of the connections, the piece
/// manager reports the download over exactly when every piece is downloaded.
pub proof fn lemma_finished_iff_all_downloaded(s: PieceManagerModel, msg: PieceManagerMessage)
    requires
        !(msg is Init),
    ensures
        spec_handle(s, msg).2 == all_downloaded(spec_handle(s, msg).0),
{
}


/// Every piece that is not downloaded either waits to be asked for or is asked of a peer.
pub open spec fn accounted(s: PieceManagerModel) -> bool {
    forall|p: int| #[trigger] live(s, p) ==> s.ready[p] || s.asked_to[p] is Some
}

proof fn lemma_ask_accounted(s: PieceManagerModel)
    requires
        askable(s),
        accounted(s),
    ensures
        accounted(spec_ask(s).0),
{
    lemma_ask(s);
    let t = spec_ask(s).0;
    let r = spec_ask(s).1;
    assert forall|p: int| #[trigger] live(t, p) implies t.ready[p] || t.asked_to[p] is Some by {
        assert(live(s, p));
        if r.len() == 1 && p == r[0].1 {
        } else {
            assert(t.asked_to[p] == s.asked_to[p] && t.ready[p] == s.ready[p]);
        }
    }
}

proof fn lemma_ask_n_accounted(s: PieceManagerModel, k: nat)
    requires
        askable(s),
        accounted(s),
    ensures
        accounted(spec_ask_n(s, k).0),
    decreases k,
{
    if k > 0 {
        lemma_ask_n_accounted(s, (k - 1) as nat);
        lemma_ask_n(s, (k - 1) as nat);
        lemma_ask_accounted(spec_ask_n(s, (k - 1) as nat).0);
    }
}

proof fn lemma_reassign_accounted(
    asked: Seq<Option<Seq<u8>>>,
    peer: Seq<u8>,
    s: PieceManagerModel,
    i: int,
)
    requires
        wf(s),
        accounted(s),
        s.asked_to == asked,
        forall|q: int, j: int|
            live(s, q) && 0 <= j < peers_of(s, q).len() ==> #[trigger] peers_of(s, q)[j] != peer,
        0 <= i <= s.allowed.len(),
    ensures
        accounted(reassign_upto(asked, peer, s, i).0),
    decreases i,
{
    if i > 0 {
        lemma_reassign_accounted(asked, peer, s, i - 1);
        let t = reassign_upto(asked, peer, s, i - 1).0;
        if asked[i - 1] == Some(peer) {
            lemma_reassign_unask(asked, peer, s, i - 1);
            lemma_reassign(asked, peer, s, i - 1);
            let u = unask(t, i - 1);
            assert forall|p: int| #[trigger] live(u, p) implies u.ready[p] || u.asked_to[p] is Some by {
                assert(live(t, p));
            }
            lemma_ask_accounted(u);
        }
    }
}

/// Law: no piece gets lost. If every piece that is not downloaded waits to be asked for or
/// is asked of a peer, that stays so whatever message comes: a piece whose download failed,
/// or whose peer failed, waits again or is asked of another peer.
pub proof fn lemma_no_piece_lost(s: PieceManagerModel, msg: PieceManagerMessage)
    requires
        wf(s),
        accounted(s),
        accepts(s, msg),
    ensures
        accounted(spec_handle(s, msg).0),
{
    lemma_wf_askable(s);
    match msg {
        PieceManagerMessage::PeerPieces(peer, bitfield) => {
            let t = spec_handle(s, msg).0;
            assert forall|p: int| #[trigger] live(t, p) implies t.ready[p] || t.asked_to[p] is Some by {
                assert(live(s, p));
            }
        },
        PieceManagerMessage::FinishedEstablishingConnections(_) => {
            let t = PieceManagerModel { is_downloading: true, ..s };
            assert forall|q: int, i: int| live(t, q) && 0 <= i < peers_of(t, q).len() implies t.counts.contains_key(
                #[trigger] peers_of(t, q)[i],
            ) by {
                assert(peers_of(t, q) == peers_of(s, q));
            }
            assert forall|p: int| #[trigger] live(t, p) implies t.ready[p] || t.asked_to[p] is Some by {
                assert(live(s, p));
            }
            lemma_ask_n_accounted(t, super::model::first_pieces(s));
        },
        PieceManagerMessage::Have(peer, q) => {
            lemma_have(s, peer@, q as int);
            if live(s, q as int) {
                let t = add_have(s, peer@, q as int);
                assert forall|p: int| #[trigger] live(t, p) implies t.ready[p] || t.asked_to[p] is Some by {
                    assert(live(s, p));
                }
                if s.is_downloading && s.without_peer[q as int] {
                    lemma_wf_askable(t);
                    lemma_ask_accounted(t);
                }
            }
        },
        PieceManagerMessage::ReaskedTracker => {
            lemma_ask_n_accounted(s, super::model::waiting_without_peer(s, s.allowed.len() as int));
        },
        PieceManagerMessage::SuccessfulDownload(q, peer) => {
            let t = spec_handle(s, msg).0;
            assert forall|p: int| #[trigger] live(t, p) implies t.ready[p] || t.asked_to[p] is Some by {
                assert(live(s, p));
            }
        },
        PieceManagerMessage::FailedDownload(q, peer) => {
            lemma_failure_unask(s, q as int, peer@);
            let u = unask(s, q as int);
            assert forall|p: int| #[trigger] live(u, p) implies u.ready[p] || u.asked_to[p] is Some by {
                assert(live(s, p));
            }
            lemma_ask_accounted(u);
            let v = spec_ask(u).0;
            let w = spec_handle(s, msg).0;
            assert forall|p: int| #[trigger] live(w, p) implies w.ready[p] || w.asked_to[p] is Some by {
                assert(live(v, p));
            }
        },
        PieceManagerMessage::FailedConnection(peer) => {
            let f = forget_peer(s, peer@);
            lemma_forget_peer(s, peer@);
            assert forall|p: int| #[trigger] live(f, p) implies f.ready[p] || f.asked_to[p] is Some by {
                assert(live(s, p));
            }
            let n = s.allowed.len() as int;
            lemma_reassign_accounted(s.asked_to, peer@, f, n);
            let t = reassign_upto(s.asked_to, peer@, f, n).0;
            let w = spec_handle(s, msg).0;
            assert forall|p: int| #[trigger] live(w, p) implies w.ready[p] || w.asked_to[p] is Some by {
                assert(live(t, p));
            }
        },
        _ => {},
    }
}

/// Law: after its connection failed, a peer is forgotten: it is listed for no piece, no
/// piece is asked of it, and it has no count.
pub proof fn lemma_failed_peer_forgotten(s: PieceManagerModel, peer: Vec<u8>)
    requires
        wf(s),
    ensures
        ({
            let t = spec_handle(s, PieceManagerMessage::FailedConnection(peer)).0;
            &&& !t.counts.contains_key(peer@)
            &&& forall|p: int| 0 <= p < t.allowed.len() ==> #[trigger] t.asked_to[p] != Some(peer@)
            &&& forall|p: int, j: int|
                live(t, p) && 0 <= j < peers_of(t, p).len() ==> #[trigger] peers_of(t, p)[j]
                    != peer@
        }),
{
    let f = forget_peer(s, peer@);
    lemma_forget_peer(s, peer@);
    let n = s.allowed.len() as int;
    lemma_reassign(s.asked_to, peer@, f, n);
    let t = reassign_upto(s.asked_to, peer@, f, n).0;
    let w = spec_handle(s, PieceManagerMessage::FailedConnection(peer)).0;
    assert(w == spec_connection_failed(s, peer@).0);
    assert forall|p: int, j: int| live(w, p) && 0 <= j < peers_of(w, p).len() implies #[trigger] peers_of(
        w,
        p,
    )[j] != peer@ by {
        assert(peers_of(w, p) == peers_of(f, p));
    }
}

/// Law: a fresh piece manager has every piece waiting to be asked for.
pub proof fn lemma_initial_accounted(n: nat)
    ensures
        accounted(super::worker::initial_model(n)),
{
}

/// Asking `k` times makes at most `k` requests.
proof fn lemma_ask_n_at_most(s: PieceManagerModel, k: nat)
    requires
        askable(s),
    ensures
        spec_ask_n(s, k).1.len() <= k,
    decreases k,
{
    if k > 0 {
        lemma_ask_n_at_most(s, (k - 1) as nat);
        lemma_ask_n(s, (k - 1) as nat);
        lemma_ask(spec_ask_n(s, (k - 1) as nat).0);
    }
}

/// Law: starting the download asks for at most 100 pieces, and for no more than the pieces
/// at the front that some peer has; the others wait until pieces finish.
pub proof fn lemma_start_asks_at_most_100(s: PieceManagerModel, n: usize)
    requires
        wf(s),
    ensures
        spec_handle(s, PieceManagerMessage::FinishedEstablishingConnections(n)).1.len() <= 100,
        spec_handle(s, PieceManagerMessage::FinishedEstablishingConnections(n)).1.len()
            <= super::model::leading_available(s.allowed),
{
    let t = PieceManagerModel { is_downloading: true, ..s };
    super::model::lemma_start(s);
    lemma_wf_askable(t);
    lemma_ask_n_at_most(t, super::model::first_pieces(s));
}

/// The number of pieces below `n` that may be asked for now.
pub open spec fn eligible_below(s: PieceManagerModel, n: int) -> nat
    decreases n,
{
    if n <= 0 {
        0
    } else {
        eligible_below(s, n - 1) + if eligible(s, n - 1) {
            1nat
        } else {
            0nat
        }
    }
}

/// The number of pieces that may be asked for now: waiting, not downloaded, and had by
/// between one and 49 peers.
pub open spec fn eligible_count(s: PieceManagerModel) -> nat {
    eligible_below(s, s.allowed.len() as int)
}

/// Some piece below `n` may be asked for when the count below `n` is not zero.
proof fn lemma_eligible_witness(s: PieceManagerModel, n: int)
    requires
        eligible_below(s, n) > 0,
    ensures
        exists|q: int| 0 <= q < n && eligible(s, q),
    decreases n,
{
    if n > 0 && !eligible(s, n - 1) {
        lemma_eligible_witness(s, n - 1);
    }
}

/// States that agree on which pieces may be asked for have the same count.
proof fn lemma_eligible_same(s: PieceManagerModel, t: PieceManagerModel, n: int)
    requires
        forall|q: int| 0 <= q < n ==> eligible(s, q) == eligible(t, q),
    ensures
        eligible_below(s, n) == eligible_below(t, n),
    decreases n,
{
    if n > 0 {
        lemma_eligible_same(s, t, n - 1);
    }
}

/// When one piece stops being eligible and no other changes, the count drops by one.
proof fn lemma_eligible_drop(s: PieceManagerModel, t: PieceManagerModel, p: int, n: int)
    requires
        0 <= p < n,
        eligible(s, p),
        !eligible(t, p),
        forall|q: int| 0 <= q < n && q != p ==> eligible(s, q) == eligible(t, q),
    ensures
        eligible_below(t, n) + 1 == eligible_below(s, n),
    decreases n,
{
    if n - 1 == p {
        lemma_eligible_same(s, t, n - 1);
    } else {
        lemma_eligible_drop(s, t, p, n - 1);
    }
}

/// An eligible piece leads to an optimal one: the eligible piece with the fewest peers and,
/// among those, the first.
proof fn lemma_optimal_exists(s: PieceManagerModel, p: int)
    requires
        eligible(s, p),
    ensures
        exists|q: int| super::model::is_optimal(s, q),
    decreases peers_of(s, p).len(), p,
{
    if !super::model::is_optimal(s, p) {
        if exists|q: int| #[trigger] eligible(s, q) && peers_of(s, q).len() < peers_of(s, p).len() {
            let q = choose|q: int| #[trigger] eligible(s, q) && peers_of(s, q).len() < peers_of(
                s,
                p,
            ).len();
            lemma_optimal_exists(s, q);
        } else {
            let q = choose|q: int|
                0 <= q < p && #[trigger] eligible(s, q) && peers_of(s, q).len() <= peers_of(
                    s,
                    p,
                ).len();
            lemma_optimal_exists(s, q);
        }
    } else {
        assert(super::model::is_optimal(s, p));
    }
}

/// Asking once makes a request exactly when some piece may be asked for, and that piece
/// then no longer may.
proof fn lemma_ask_count(s: PieceManagerModel)
    requires
        askable(s),
    ensures
        spec_ask(s).1.len() == if eligible_count(s) > 0 {
            1nat
        } else {
            0nat
        },
        spec_ask(s).0.allowed.len() == s.allowed.len(),
        eligible_count(spec_ask(s).0) + spec_ask(s).1.len() == eligible_count(s),
{
    lemma_ask(s);
    let n = s.allowed.len() as int;
    let t = spec_ask(s).0;
    if eligible_count(s) > 0 {
        lemma_eligible_witness(s, n);
        let w = choose|q: int| 0 <= q < n && eligible(s, q);
        lemma_optimal_exists(s, w);
        assert(super::model::optimal_piece(s) is Some);
        assert(spec_ask(s).1.len() == 1);
        let p = spec_ask(s).1[0].1 as int;
        assert(eligible(s, p));
        assert(!t.ready[p]);
        assert forall|q: int| 0 <= q < n && q != p implies eligible(s, q) == eligible(t, q) by {
            assert(t.ready[q] == s.ready[q]);
            assert(peers_of(t, q) == peers_of(s, q));
        }
        lemma_eligible_drop(s, t, p, n);
    } else {
        if super::model::optimal_piece(s) is Some {
            let p = super::model::optimal_piece(s)->0;
            assert(super::model::is_optimal(s, p));
            lemma_eligible_positive(s, p, n);
        }
        assert(t == s);
    }
}

/// A count that covers an eligible piece is not zero.
proof fn lemma_eligible_positive(s: PieceManagerModel, p: int, n: int)
    requires
        0 <= p < n,
        eligible(s, p),
    ensures
        eligible_below(s, n) > 0,
    decreases n,
{
    if n - 1 != p {
        lemma_eligible_positive(s, p, n - 1);
    }
}

/// Asking `k` times makes as many requests as `k` and the eligible pieces allow.
proof fn lemma_ask_n_count(s: PieceManagerModel, k: nat)
    requires
        askable(s),
    ensures
        spec_ask_n(s, k).1.len() == if k < eligible_count(s) {
            k
        } else {
            eligible_count(s)
        },
        spec_ask_n(s, k).0.allowed.len() == s.allowed.len(),
        eligible_count(spec_ask_n(s, k).0) + spec_ask_n(s, k).1.len() == eligible_count(s),
    decreases k,
{
    if k > 0 {
        lemma_ask_n_count(s, (k - 1) as nat);
        lemma_ask_n(s, (k - 1) as nat);
        lemma_ask_count(spec_ask_n(s, (k - 1) as nat).0);
    }
}

/// Law: starting the download asks for as many pieces as the first 100 available pieces at
/// the front allow, and as there are pieces that may be asked for: the smallest of 100, the
/// number of pieces at the front that some peer has, and the number of pieces that may be
/// asked for.
pub proof fn lemma_start_request_count(s: PieceManagerModel, n: usize)
    requires
        wf(s),
    ensures
        ({
            let k = super::model::leading_available(s.allowed);
            let e = eligible_count(s);
            let m = if k < 100 {
                k
            } else {
                100
            };
            spec_handle(s, PieceManagerMessage::FinishedEstablishingConnections(n)).1.len() == if m
                < e {
                m
            } else {
                e
            }
        }),
{
    let t = PieceManagerModel { is_downloading: true, ..s };
    super::model::lemma_start(s);
    lemma_wf_askable(t);
    assert forall|q: int| 0 <= q < s.allowed.len() implies eligible(s, q) == eligible(t, q) by {
        assert(peers_of(t, q) == peers_of(s, q));
    }
    lemma_eligible_same(s, t, s.allowed.len() as int);
    lemma_ask_n_count(t, super::model::first_pieces(s));
}

} // verus!
