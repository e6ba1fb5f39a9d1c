use vstd::prelude::*;

use super::types::PieceManagerMessage;
use crate::peer::types::bitfield_has;

verus! {

/// The state of the piece manager, as values.
pub struct PieceManagerModel {
    /// For each piece: the ids of the peers known to have it, or `None` once it has been
    /// downloaded.
    pub allowed: Seq<Option<Seq<Seq<u8>>>>,
    /// For each piece: whether it waits to be asked of a peer.
    pub ready: Seq<bool>,
    /// Whether the download has started.
    pub is_downloading: bool,
    /// For each piece: the peer it has been asked of, while it is being downloaded.
    pub asked_to: Seq<Option<Seq<u8>>>,
    /// For each piece: whether it was left without a peer to ask.
    pub without_peer: Seq<bool>,
    /// For each known peer: how many pieces it has been asked for.
    pub counts: Map<Seq<u8>, nat>,
}

/// A request of the piece manager: ask the peer with this id for the piece with this index.
pub type Request = (Seq<u8>, u32);

/// Whether the piece `p` exists and has not been downloaded yet.
pub open spec fn live(s: PieceManagerModel, p: int) -> bool {
    0 <= p < s.allowed.len() && s.allowed[p] is Some
}

/// The peers known to have the piece `p` (none once it is downloaded).
pub open spec fn peers_of(s: PieceManagerModel, p: int) -> Seq<Seq<u8>> {
    match s.allowed[p] {
        Some(l) => l,
        None => Seq::empty(),
    }
}

/// How many pieces of `asked` are asked of `peer`.
pub open spec fn asked_count(asked: Seq<Option<Seq<u8>>>, peer: Seq<u8>) -> nat
    decreases asked.len(),
{
    if asked.len() == 0 {
        0
    } else {
        asked_count(asked.drop_last(), peer) + if asked.last() == Some(peer) {
            1nat
        } else {
            0nat
        }
    }
}

/// All the per-piece sequences have one entry per piece, and the pieces can be numbered
/// by a `u32`.
pub open spec fn shaped(s: PieceManagerModel) -> bool {
    &&& s.ready.len() == s.allowed.len()
    &&& s.asked_to.len() == s.allowed.len()
    &&& s.without_peer.len() == s.allowed.len()
    &&& s.allowed.len() <= u32::MAX
}

/// Every peer listed for a piece has a count.
pub open spec fn peers_counted(s: PieceManagerModel) -> bool {
    forall|p: int, i: int|
        live(s, p) && 0 <= i < peers_of(s, p).len() ==> s.counts.contains_key(
            #[trigger] peers_of(s, p)[i],
        )
}

/// A piece that waits to be asked for is not downloaded and not asked of anyone.
pub open spec fn ready_unasked(s: PieceManagerModel) -> bool {
    forall|p: int|
        0 <= p < s.allowed.len() && #[trigger] s.ready[p] ==> s.allowed[p] is Some
            && s.asked_to[p] is None
}

/// A piece that is asked of a peer is not downloaded, and that peer has a count.
pub open spec fn asked_live(s: PieceManagerModel) -> bool {
    forall|p: int|
        0 <= p < s.allowed.len() && #[trigger] s.asked_to[p] is Some ==> s.allowed[p] is Some
            && s.counts.contains_key(s.asked_to[p]->0)
}

/// Every peer's count is the number of pieces asked of it.
pub open spec fn counts_exact(s: PieceManagerModel) -> bool {
    forall|k: Seq<u8>| #[trigger]
        s.counts.contains_key(k) ==> s.counts[k] == asked_count(s.asked_to, k)
}

/// No count exceeds the number of pieces asked of its peer by more than the number of
/// pieces.
pub open spec fn counts_bounded(s: PieceManagerModel) -> bool {
    forall|k: Seq<u8>| #[trigger]
        s.counts.contains_key(k) ==> s.counts[k] <= asked_count(s.asked_to, k) + s.allowed.len()
}

/// The invariant of the piece manager.
pub open spec fn wf(s: PieceManagerModel) -> bool {
    &&& shaped(s)
    &&& peers_counted(s)
    &&& ready_unasked(s)
    &&& asked_live(s)
    &&& counts_exact(s)
}

/// What asking for a piece needs: the invariant, with the counts only bounded.
pub open spec fn askable(s: PieceManagerModel) -> bool {
    &&& shaped(s)
    &&& peers_counted(s)
    &&& ready_unasked(s)
    &&& asked_live(s)
    &&& counts_bounded(s)
}

/// Whether the piece `p` may be asked for now: it waits to be asked for and between one
/// and 49 peers have it.
pub open spec fn eligible(s: PieceManagerModel, p: int) -> bool {
    live(s, p) && s.ready[p] && 0 < peers_of(s, p).len() < 50
}

/// Whether `p` is the first of the eligible pieces with the fewest peers.
pub open spec fn is_optimal(s: PieceManagerModel, p: int) -> bool {
    &&& eligible(s, p)
    &&& forall|q: int| #[trigger]
        eligible(s, q) ==> peers_of(s, p).len() <= peers_of(s, q).len()
    &&& forall|q: int| 0 <= q < p && #[trigger] eligible(s, q) ==> peers_of(s, p).len() < peers_of(
        s,
        q,
    ).len()
}

/// The piece to ask for next: the first of the eligible pieces with the fewest peers.
pub open spec fn optimal_piece(s: PieceManagerModel) -> Option<int> {
    if exists|p: int| is_optimal(s, p) {
        Some(choose|p: int| is_optimal(s, p))
    } else {
        None
    }
}

/// Whether `j` is the first position of `peers` whose peer has the smallest count.
pub open spec fn is_least_loaded(
    peers: Seq<Seq<u8>>,
    counts: Map<Seq<u8>, nat>,
    j: int,
) -> bool {
    &&& 0 <= j < peers.len()
    &&& forall|i: int| 0 <= i < peers.len() ==> counts[peers[j]] <= counts[#[trigger] peers[i]]
    &&& forall|i: int| 0 <= i < j ==> counts[peers[j]] < counts[#[trigger] peers[i]]
}

/// The first position of `peers` whose peer has the smallest count.
pub open spec fn least_loaded(peers: Seq<Seq<u8>>, counts: Map<Seq<u8>, nat>) -> int {
    choose|j: int| is_least_loaded(peers, counts, j)
}

/// Asks for the optimal piece, if there is one, the peer of that piece with the fewest
/// pieces asked of it: the piece no longer waits, is asked of that peer, is no longer
/// without a peer, and the peer's count grows by one.
pub open spec fn spec_ask(s: PieceManagerModel) -> (PieceManagerModel, Seq<Request>) {
    match optimal_piece(s) {
        None => (s, Seq::empty()),
        Some(p) => {
            let peer = peers_of(s, p)[least_loaded(peers_of(s, p), s.counts)];
            (
                PieceManagerModel {
                    allowed: s.allowed,
                    ready: s.ready.update(p, false),
                    is_downloading: s.is_downloading,
                    asked_to: s.asked_to.update(p, Some(peer)),
                    without_peer: s.without_peer.update(p, false),
                    counts: s.counts.insert(peer, s.counts[peer] + 1),
                },
                seq![(peer, p as u32)],
            )
        },
    }
}

/// How far a peer's count is above the number of pieces asked of it.
pub open spec fn surplus(s: PieceManagerModel, k: Seq<u8>) -> int {
    s.counts[k] - asked_count(s.asked_to, k)
}

pub proof fn lemma_asked_count_bound(asked: Seq<Option<Seq<u8>>>, peer: Seq<u8>)
    ensures
        asked_count(asked, peer) <= asked.len(),
    decreases asked.len(),
{
    if asked.len() > 0 {
        lemma_asked_count_bound(asked.drop_last(), peer);
    }
}

pub proof fn lemma_asked_count_update(
    asked: Seq<Option<Seq<u8>>>,
    i: int,
    v: Option<Seq<u8>>,
    peer: Seq<u8>,
)
    requires
        0 <= i < asked.len(),
    ensures
        asked_count(asked.update(i, v), peer) + (if asked[i] == Some(peer) {
            1int
        } else {
            0int
        }) == asked_count(asked, peer) + (if v == Some(peer) {
            1int
        } else {
            0int
        }),
    decreases asked.len(),
{
    let u = asked.update(i, v);
    if i == asked.len() - 1 {
        assert(u.drop_last() =~= asked.drop_last());
    } else {
        assert(u.drop_last() =~= asked.drop_last().update(i, v));
        lemma_asked_count_update(asked.drop_last(), i, v, peer);
    }
}

/// There is at most one optimal piece.
pub proof fn lemma_optimal_unique(s: PieceManagerModel, p: int, q: int)
    requires
        is_optimal(s, p),
        is_optimal(s, q),
    ensures
        p == q,
{
    if p < q {
        assert(eligible(s, p));
    } else if q < p {
        assert(eligible(s, q));
    }
}

/// There is at most one first least-loaded position.
pub proof fn lemma_least_loaded_unique(
    peers: Seq<Seq<u8>>,
    counts: Map<Seq<u8>, nat>,
    i: int,
    j: int,
)
    requires
        is_least_loaded(peers, counts, i),
        is_least_loaded(peers, counts, j),
    ensures
        i == j,
{
    if i < j {
        assert(counts[peers[j]] < counts[peers[i]]);
        assert(counts[peers[i]] <= counts[peers[j]]);
    } else if j < i {
        assert(counts[peers[i]] < counts[peers[j]]);
        assert(counts[peers[j]] <= counts[peers[i]]);
    }
}

/// Asking for a piece keeps the relaxed invariant and every peer's surplus, and the piece
/// asked for is one that was eligible, asked of one of its peers.
pub proof fn lemma_ask(s: PieceManagerModel)
    requires
        askable(s),
    ensures
        askable(spec_ask(s).0),
        spec_ask(s).0.allowed == s.allowed,
        spec_ask(s).0.is_downloading == s.is_downloading,
        spec_ask(s).0.counts.dom() == s.counts.dom(),
        forall|k: Seq<u8>| #[trigger]
            s.counts.contains_key(k) ==> surplus(spec_ask(s).0, k) == surplus(s, k),
        spec_ask(s).1.len() <= 1,
        spec_ask(s).1.len() == 1 ==> {
            let (peer, p) = spec_ask(s).1[0];
            &&& eligible(s, p as int)
            &&& peers_of(s, p as int).contains(peer)
            &&& spec_ask(s).0.asked_to[p as int] == Some(peer)
        },
        forall|q: int|
            0 <= q < s.allowed.len() && (spec_ask(s).1.len() == 0 || q != spec_ask(s).1[0].1)
                ==> #[trigger] spec_ask(s).0.asked_to[q] == s.asked_to[q]
                && spec_ask(s).0.ready[q] == s.ready[q],
{
    match optimal_piece(s) {
        None => {},
        Some(p) => {
            assert(is_optimal(s, p));
            let l = peers_of(s, p);
            let j = least_loaded(l, s.counts);
            // a least-loaded position exists: take the first with the smallest count
            assert(exists|j: int| is_least_loaded(l, s.counts, j)) by {
                lemma_least_loaded_exists(l, s.counts);
            }
            assert(is_least_loaded(l, s.counts, j));
            let peer = l[j];
            let t = spec_ask(s).0;
            assert(s.counts.contains_key(peer));
            assert(l.contains(peer));
            assert(t.asked_to == s.asked_to.update(p, Some(peer)));
            assert(s.asked_to[p] is None);
            assert forall|k: Seq<u8>| #[trigger]
                s.counts.contains_key(k) implies surplus(t, k) == surplus(s, k) by {
                lemma_asked_count_update(s.asked_to, p, Some(peer), k);
            }
            assert forall|k: Seq<u8>| #[trigger]
                t.counts.contains_key(k) implies t.counts[k] <= asked_count(t.asked_to, k)
                + t.allowed.len() by {
                lemma_asked_count_update(s.asked_to, p, Some(peer), k);
            }
            assert forall|q: int, i: int|
                live(t, q) && 0 <= i < peers_of(t, q).len() implies t.counts.contains_key(
                #[trigger] peers_of(t, q)[i],
            ) by {
                assert(peers_of(t, q) == peers_of(s, q));
            }
            assert(t.counts.dom() =~= s.counts.dom());
        },
    }
}

/// A non-empty sequence of counted peers has a first least-loaded position.
pub proof fn lemma_least_loaded_exists(peers: Seq<Seq<u8>>, counts: Map<Seq<u8>, nat>)
    requires
        peers.len() > 0,
    ensures
        exists|j: int| is_least_loaded(peers, counts, j),
    decreases peers.len(),
{
    if peers.len() == 1 {
        assert(is_least_loaded(peers, counts, 0));
    } else {
        let front = peers.drop_last();
        lemma_least_loaded_exists(front, counts);
        let j = choose|j: int| is_least_loaded(front, counts, j);
        let last = peers.len() - 1;
        if counts[peers[last]] < counts[peers[j]] {
            assert(is_least_loaded(peers, counts, last)) by {
                assert forall|i: int| 0 <= i < peers.len() implies counts[peers[last]]
                    <= counts[#[trigger] peers[i]] by {
                    if i < last {
                        assert(peers[i] == front[i]);
                    }
                }
                assert forall|i: int| 0 <= i < last implies counts[peers[last]]
                    < counts[#[trigger] peers[i]] by {
                    assert(peers[i] == front[i]);
                }
            }
        } else {
            assert(is_least_loaded(peers, counts, j)) by {
                assert forall|i: int| 0 <= i < peers.len() implies counts[peers[j]]
                    <= counts[#[trigger] peers[i]] by {
                    if i < last {
                        assert(peers[i] == front[i]);
                    }
                }
                assert forall|i: int| 0 <= i < j implies counts[peers[j]]
                    < counts[#[trigger] peers[i]] by {
                    assert(peers[i] == front[i]);
                }
            }
        }
    }
}


/// Asks for a piece `k` times in a row.
pub open spec fn spec_ask_n(s: PieceManagerModel, k: nat) -> (PieceManagerModel, Seq<Request>)
    decreases k,
{
    if k == 0 {
        (s, Seq::empty())
    } else {
        let (t, r) = spec_ask_n(s, (k - 1) as nat);
        let (u, r2) = spec_ask(t);
        (u, r + r2)
    }
}

/// The number of pieces at the front of `allowed`, passing over the downloaded ones,
/// that some peer has.
pub open spec fn leading_available(allowed: Seq<Option<Seq<Seq<u8>>>>) -> nat
    decreases allowed.len(),
{
    if allowed.len() == 0 {
        0
    } else {
        match allowed[0] {
            None => leading_available(allowed.drop_first()),
            Some(l) => if l.len() > 0 {
                1 + leading_available(allowed.drop_first())
            } else {
                0
            },
        }
    }
}

/// The number of pieces asked for when the download starts.
pub open spec fn first_pieces(s: PieceManagerModel) -> nat {
    let k = leading_available(s.allowed);
    if k < 100 {
        k
    } else {
        100
    }
}

/// Starts the download: asks for as many pieces as there are available pieces at the
/// front, at most 100.
pub open spec fn spec_start(s: PieceManagerModel) -> (PieceManagerModel, Seq<Request>) {
    spec_ask_n(PieceManagerModel { is_downloading: true, ..s }, first_pieces(s))
}

/// The piece `p` was downloaded from `peer`: it is done, and the peer's count drops.
pub open spec fn spec_success(s: PieceManagerModel, p: int, peer: Seq<u8>) -> PieceManagerModel {
    PieceManagerModel {
        allowed: s.allowed.update(p, None),
        ready: s.ready.update(p, false),
        asked_to: s.asked_to.update(p, None),
        counts: s.counts.insert(peer, (s.counts[peer] - 1) as nat),
        ..s
    }
}

/// The state with the piece `p` asked of no one and waiting again.
pub open spec fn unask(s: PieceManagerModel, p: int) -> PieceManagerModel {
    PieceManagerModel { ready: s.ready.update(p, true), asked_to: s.asked_to.update(p, None), ..s }
}

/// The download of the piece `p` from `peer` failed: the piece waits again, a piece is
/// asked for, and then the peer's count drops.
pub open spec fn spec_failure(s: PieceManagerModel, p: int, peer: Seq<u8>) -> (
    PieceManagerModel,
    Seq<Request>,
) {
    let (u, r) = spec_ask(unask(s, p));
    (PieceManagerModel { counts: u.counts.insert(peer, (u.counts[peer] - 1) as nat), ..u }, r)
}

/// Whether some piece that is not downloaded is in the bitfield `bits`.
pub open spec fn has_some_live(s: PieceManagerModel, bits: Seq<u8>) -> bool {
    exists|p: int| live(s, p) && #[trigger] bitfield_has(bits, p)
}

/// The peer `peer` sent its bitfield `bits`: it is listed for every piece that is not
/// downloaded and that the bitfield has, and it gets a count of zero if it had none and
/// was listed somewhere.
pub open spec fn spec_update_peers(s: PieceManagerModel, bits: Seq<u8>, peer: Seq<u8>) -> PieceManagerModel {
    PieceManagerModel {
        allowed: Seq::new(
            s.allowed.len(),
            |p: int|
                match s.allowed[p] {
                    Some(l) => Some(
                        if bitfield_has(bits, p) {
                            l.push(peer)
                        } else {
                            l
                        },
                    ),
                    None => None,
                },
        ),
        counts: if has_some_live(s, bits) && !s.counts.contains_key(peer) {
            s.counts.insert(peer, 0)
        } else {
            s.counts
        },
        ..s
    }
}

/// The state with `peer` listed once more for the piece `p`.
pub open spec fn add_have(s: PieceManagerModel, peer: Seq<u8>, p: int) -> PieceManagerModel {
    PieceManagerModel { allowed: s.allowed.update(p, Some(peers_of(s, p).push(peer))), ..s }
}

/// The peer `peer` has the piece `p`: it is listed for the piece if the piece is not
/// downloaded, and the piece is asked for if the download has started and the piece was
/// without a peer.
pub open spec fn spec_have(s: PieceManagerModel, peer: Seq<u8>, p: int) -> (
    PieceManagerModel,
    Seq<Request>,
) {
    if live(s, p) {
        let t = add_have(s, peer, p);
        if s.is_downloading && s.without_peer[p] {
            spec_ask(t)
        } else {
            (t, Seq::empty())
        }
    } else {
        (s, Seq::empty())
    }
}

/// The number of pieces below `i` that are without a peer and not downloaded.
pub open spec fn waiting_without_peer(s: PieceManagerModel, i: int) -> nat
    decreases i,
{
    if i <= 0 {
        0
    } else {
        waiting_without_peer(s, i - 1) + if s.without_peer[i - 1] && live(s, i - 1) {
            1nat
        } else {
            0nat
        }
    }
}

/// The tracker was asked again: a piece is asked for once for each piece that is without a
/// peer and not downloaded.
pub open spec fn spec_without_peers(s: PieceManagerModel) -> (PieceManagerModel, Seq<Request>) {
    spec_ask_n(s, waiting_without_peer(s, s.allowed.len() as int))
}

/// The peers `peers` but `peer`.
pub open spec fn without(peers: Seq<Seq<u8>>, peer: Seq<u8>) -> Seq<Seq<u8>> {
    peers.filter(other_than(peer))
}

/// Whether a peer id is not `peer`.
pub open spec fn other_than(peer: Seq<u8>) -> spec_fn(Seq<u8>) -> bool {
    |x: Seq<u8>| x != peer
}

/// The state with `peer` taken out of every piece's peers.
pub open spec fn forget_peer(s: PieceManagerModel, peer: Seq<u8>) -> PieceManagerModel {
    PieceManagerModel {
        allowed: Seq::new(
            s.allowed.len(),
            |p: int|
                match s.allowed[p] {
                    Some(l) => Some(without(l, peer)),
                    None => None,
                },
        ),
        ..s
    }
}

/// Going through the pieces below `i`: each one that `asked` shows asked of `peer` waits
/// again, and a piece is asked for.
pub open spec fn reassign_upto(
    asked: Seq<Option<Seq<u8>>>,
    peer: Seq<u8>,
    s: PieceManagerModel,
    i: int,
) -> (PieceManagerModel, Seq<Request>)
    decreases i,
{
    if i <= 0 {
        (s, Seq::empty())
    } else {
        let (t, r) = reassign_upto(asked, peer, s, i - 1);
        if asked[i - 1] == Some(peer) {
            let (v, r2) = spec_ask(unask(t, i - 1));
            (v, r + r2)
        } else {
            (t, r)
        }
    }
}

/// The connection with `peer` failed: it is taken out of every piece's peers, each piece
/// asked of it waits again and a piece is asked for in its place, and its count is
/// dropped.
pub open spec fn spec_connection_failed(s: PieceManagerModel, peer: Seq<u8>) -> (
    PieceManagerModel,
    Seq<Request>,
) {
    let (t, r) = reassign_upto(s.asked_to, peer, forget_peer(s, peer), s.allowed.len() as int);
    (PieceManagerModel { counts: t.counts.remove(peer), ..t }, r)
}

/// Whether every piece has been downloaded.
pub open spec fn all_downloaded(s: PieceManagerModel) -> bool {
    forall|p: int| 0 <= p < s.allowed.len() ==> #[trigger] s.allowed[p] is None
}


/// The invariant gives the relaxed invariant.
pub proof fn lemma_wf_askable(s: PieceManagerModel)
    requires
        wf(s),
    ensures
        askable(s),
        forall|k: Seq<u8>| #[trigger] s.counts.contains_key(k) ==> surplus(s, k) == 0,
{
}

/// The relaxed invariant with no surplus is the invariant.
pub proof fn lemma_askable_wf(s: PieceManagerModel)
    requires
        askable(s),
        forall|k: Seq<u8>| #[trigger] s.counts.contains_key(k) ==> surplus(s, k) == 0,
    ensures
        wf(s),
{
}

/// Asking for pieces several times keeps what asking once keeps.
pub proof fn lemma_ask_n(s: PieceManagerModel, k: nat)
    requires
        askable(s),
    ensures
        askable(spec_ask_n(s, k).0),
        spec_ask_n(s, k).0.allowed == s.allowed,
        spec_ask_n(s, k).0.is_downloading == s.is_downloading,
        spec_ask_n(s, k).0.counts.dom() == s.counts.dom(),
        forall|j: Seq<u8>| #[trigger]
            s.counts.contains_key(j) ==> surplus(spec_ask_n(s, k).0, j) == surplus(s, j),
    decreases k,
{
    if k > 0 {
        let t = spec_ask_n(s, (k - 1) as nat).0;
        lemma_ask_n(s, (k - 1) as nat);
        lemma_ask(t);
    }
}

/// A peer without a count has no piece asked of it.
pub proof fn lemma_uncounted_not_asked(asked: Seq<Option<Seq<u8>>>, peer: Seq<u8>)
    requires
        forall|p: int| 0 <= p < asked.len() ==> #[trigger] asked[p] != Some(peer),
    ensures
        asked_count(asked, peer) == 0,
    decreases asked.len(),
{
    if asked.len() > 0 {
        let d = asked.drop_last();
        assert forall|p: int| 0 <= p < d.len() implies #[trigger] d[p] != Some(peer) by {
            assert(d[p] == asked[p]);
        }
        lemma_uncounted_not_asked(d, peer);
    }
}

/// A successful download keeps the invariant.
pub proof fn lemma_success(s: PieceManagerModel, p: int, peer: Seq<u8>)
    requires
        wf(s),
        0 <= p < s.allowed.len(),
        s.asked_to[p] == Some(peer),
    ensures
        wf(spec_success(s, p, peer)),
{
    let t = spec_success(s, p, peer);
    assert forall|k: Seq<u8>| #[trigger] t.counts.contains_key(k) implies t.counts[k]
        == asked_count(t.asked_to, k) by {
        lemma_asked_count_update(s.asked_to, p, None, k);
    }
    assert forall|q: int, i: int| live(t, q) && 0 <= i < peers_of(t, q).len() implies t.counts.contains_key(
        #[trigger] peers_of(t, q)[i],
    ) by {
        assert(peers_of(t, q) == peers_of(s, q));
    }
}

/// Un-asking a piece asked of `peer` gives the relaxed invariant, with a surplus of one
/// for that peer only.
pub proof fn lemma_failure_unask(s: PieceManagerModel, p: int, peer: Seq<u8>)
    requires
        wf(s),
        0 <= p < s.allowed.len(),
        s.asked_to[p] == Some(peer),
    ensures
        askable(unask(s, p)),
        s.counts.contains_key(peer),
        forall|k: Seq<u8>| #[trigger] s.counts.contains_key(k) ==> surplus(unask(s, p), k) == if k
            == peer {
            1int
        } else {
            0int
        },
{
    let t = unask(s, p);
    assert(s.counts.contains_key(peer));
    assert forall|k: Seq<u8>| #[trigger] t.counts.contains_key(k) implies surplus(t, k) == if k
        == peer {
        1int
    } else {
        0int
    } by {
        lemma_asked_count_update(s.asked_to, p, None, k);
    }
    assert forall|q: int, i: int| live(t, q) && 0 <= i < peers_of(t, q).len() implies t.counts.contains_key(
        #[trigger] peers_of(t, q)[i],
    ) by {
        assert(peers_of(t, q) == peers_of(s, q));
    }
    assert forall|k: Seq<u8>| #[trigger] t.counts.contains_key(k) implies t.counts[k] <= asked_count(
        t.asked_to,
        k,
    ) + t.allowed.len() by {
        assert(surplus(t, k) <= 1);
    }
}

/// A failed download keeps the invariant.
pub proof fn lemma_failure(s: PieceManagerModel, p: int, peer: Seq<u8>)
    requires
        wf(s),
        0 <= p < s.allowed.len(),
        s.asked_to[p] == Some(peer),
    ensures
        wf(spec_failure(s, p, peer).0),
{
    let t = unask(s, p);
    lemma_failure_unask(s, p, peer);
    lemma_ask(t);
    let u = spec_ask(t).0;
    assert(surplus(u, peer) == 1);
    let v = spec_failure(s, p, peer).0;
    assert(v.asked_to == u.asked_to);
    assert forall|k: Seq<u8>| #[trigger] v.counts.contains_key(k) implies surplus(v, k) == 0 by {
        if k != peer {
            assert(surplus(u, k) == surplus(t, k));
        }
    }
    assert forall|q: int, i: int| live(v, q) && 0 <= i < peers_of(v, q).len() implies v.counts.contains_key(
        #[trigger] peers_of(v, q)[i],
    ) by {
        assert(peers_of(v, q) == peers_of(u, q));
    }
    lemma_askable_wf(v);
}

/// Starting the download keeps the invariant.
pub proof fn lemma_start(s: PieceManagerModel)
    requires
        wf(s),
    ensures
        wf(spec_start(s).0),
        wf(PieceManagerModel { is_downloading: true, ..s }),
{
    let t = PieceManagerModel { is_downloading: true, ..s };
    assert forall|q: int, i: int| live(t, q) && 0 <= i < peers_of(t, q).len() implies t.counts.contains_key(
        #[trigger] peers_of(t, q)[i],
    ) by {
        assert(peers_of(t, q) == peers_of(s, q));
    }
    lemma_wf_askable(t);
    lemma_ask_n(t, first_pieces(s));
    lemma_askable_wf(spec_start(s).0);
}

/// Asking for the pieces without a peer keeps the invariant.
pub proof fn lemma_without_peers(s: PieceManagerModel)
    requires
        wf(s),
    ensures
        wf(spec_without_peers(s).0),
{
    lemma_wf_askable(s);
    lemma_ask_n(s, waiting_without_peer(s, s.allowed.len() as int));
    lemma_askable_wf(spec_without_peers(s).0);
}

/// A bitfield keeps the invariant.
pub proof fn lemma_update_peers(s: PieceManagerModel, bits: Seq<u8>, peer: Seq<u8>)
    requires
        wf(s),
    ensures
        wf(spec_update_peers(s, bits, peer)),
{
    let t = spec_update_peers(s, bits, peer);
    if has_some_live(s, bits) && !s.counts.contains_key(peer) {
        assert forall|p: int| 0 <= p < s.asked_to.len() implies #[trigger] s.asked_to[p] != Some(
            peer,
        ) by {
            if s.asked_to[p] == Some(peer) {
                assert(s.counts.contains_key(s.asked_to[p]->0));
            }
        }
        lemma_uncounted_not_asked(s.asked_to, peer);
    }
    assert forall|q: int, i: int| live(t, q) && 0 <= i < peers_of(t, q).len() implies t.counts.contains_key(
        #[trigger] peers_of(t, q)[i],
    ) by {
        let l = peers_of(s, q);
        if bitfield_has(bits, q) {
            assert(peers_of(t, q) == l.push(peer));
            if i < l.len() {
                assert(peers_of(t, q)[i] == l[i]);
            } else {
                assert(has_some_live(s, bits));
            }
        } else {
            assert(peers_of(t, q) == l);
        }
    }
}

/// A peer that has a piece keeps the invariant, when the peer has a count or the piece is
/// downloaded.
pub proof fn lemma_have(s: PieceManagerModel, peer: Seq<u8>, p: int)
    requires
        wf(s),
        live(s, p) ==> s.counts.contains_key(peer),
    ensures
        wf(spec_have(s, peer, p).0),
        live(s, p) ==> wf(add_have(s, peer, p)),
{
    if live(s, p) {
        let t = add_have(s, peer, p);
        assert forall|q: int, i: int| live(t, q) && 0 <= i < peers_of(t, q).len() implies t.counts.contains_key(
            #[trigger] peers_of(t, q)[i],
        ) by {
            if q == p {
                if i < peers_of(s, p).len() {
                    assert(peers_of(t, q)[i] == peers_of(s, p)[i]);
                }
            } else {
                assert(peers_of(t, q) == peers_of(s, q));
            }
        }
        assert(wf(t));
        if s.is_downloading && s.without_peer[p] {
            lemma_wf_askable(t);
            lemma_ask(t);
            lemma_askable_wf(spec_ask(t).0);
        }
    }
}


/// Taking a peer out of every piece's peers keeps the invariant, and leaves it in no list.
pub proof fn lemma_forget_peer(s: PieceManagerModel, peer: Seq<u8>)
    requires
        wf(s),
    ensures
        wf(forget_peer(s, peer)),
        forall|q: int, i: int|
            live(forget_peer(s, peer), q) && 0 <= i < peers_of(forget_peer(s, peer), q).len()
                ==> #[trigger] peers_of(forget_peer(s, peer), q)[i] != peer,
{
    let t = forget_peer(s, peer);
    let pred = other_than(peer);
    assert forall|q: int, i: int| live(t, q) && 0 <= i < peers_of(t, q).len() implies t.counts.contains_key(
        #[trigger] peers_of(t, q)[i],
    ) && peers_of(t, q)[i] != peer by {
        let l = peers_of(s, q);
        assert(peers_of(t, q) == l.filter(pred));
        let x = peers_of(t, q)[i];
        assert(l.filter(pred).contains(x));
        l.lemma_filter_contains_rev(pred, x);
        let j = choose|j: int| 0 <= j < l.len() && l[j] == x;
        assert(s.counts.contains_key(l[j]));
        l.lemma_filter_pred(pred, i);
    }
}

/// What going through the pieces asked of a failed peer keeps: the relaxed invariant, no
/// surplus but the failed peer's, whose count does not change, and exactly the pieces not
/// yet gone through that were asked of it are still asked of it.
pub proof fn lemma_reassign(asked: Seq<Option<Seq<u8>>>, peer: Seq<u8>, s: PieceManagerModel, i: int)
    requires
        wf(s),
        s.asked_to == asked,
        forall|q: int, j: int|
            live(s, q) && 0 <= j < peers_of(s, q).len() ==> #[trigger] peers_of(s, q)[j] != peer,
        0 <= i <= s.allowed.len(),
    ensures
        ({
            let t = reassign_upto(asked, peer, s, i).0;
            &&& askable(t)
            &&& t.allowed == s.allowed
            &&& t.is_downloading == s.is_downloading
            &&& t.counts.dom() == s.counts.dom()
            &&& t.counts[peer] == s.counts[peer]
            &&& forall|k: Seq<u8>| #[trigger]
                t.counts.contains_key(k) && k != peer ==> surplus(t, k) == 0
            &&& forall|q: int|
                0 <= q < s.allowed.len() ==> (#[trigger] t.asked_to[q] == Some(peer) <==> (i <= q
                    && asked[q] == Some(peer)))
        }),
    decreases i, 1int,
{
    let n = s.allowed.len();
    if i == 0 {
        lemma_wf_askable(s);
    } else {
        lemma_reassign(asked, peer, s, i - 1);
        let t = reassign_upto(asked, peer, s, i - 1).0;
        if asked[i - 1] == Some(peer) {
            let u = unask(t, i - 1);
            lemma_reassign_unask(asked, peer, s, i - 1);
            lemma_ask(u);
            let v = spec_ask(u).0;
            let r = spec_ask(u).1;
            if r.len() == 1 {
                let (chosen, c) = r[0];
                assert(peers_of(u, c as int).contains(chosen));
                assert(peers_of(u, c as int) == peers_of(s, c as int));
                assert(chosen != peer);
                assert(v.counts[peer] == u.counts[peer]);
                assert(u.asked_to[c as int] is None);
            } else {
                assert(v == u);
            }
            assert forall|k: Seq<u8>| #[trigger]
                v.counts.contains_key(k) && k != peer implies surplus(v, k) == 0 by {
                assert(surplus(v, k) == surplus(u, k));
            }
            assert forall|q: int| 0 <= q < n implies (#[trigger] v.asked_to[q] == Some(peer) <==> (
            i <= q && asked[q] == Some(peer))) by {
                if r.len() == 1 && q == r[0].1 {
                } else {
                    assert(v.asked_to[q] == u.asked_to[q]);
                }
            }
        } else {
            assert forall|q: int| 0 <= q < n implies (#[trigger] t.asked_to[q] == Some(peer) <==> (
            i <= q && asked[q] == Some(peer))) by {
                if q == i - 1 {
                }
            }
        }
    }
}

/// Before going through a piece asked of the failed peer, un-asking it gives the relaxed
/// invariant, with no surplus but the failed peer's.
pub proof fn lemma_reassign_unask(
    asked: Seq<Option<Seq<u8>>>,
    peer: Seq<u8>,
    s: PieceManagerModel,
    i: int,
)
    requires
        wf(s),
        s.asked_to == asked,
        forall|q: int, j: int|
            live(s, q) && 0 <= j < peers_of(s, q).len() ==> #[trigger] peers_of(s, q)[j] != peer,
        0 <= i < s.allowed.len(),
        asked[i] == Some(peer),
    ensures
        askable(unask(reassign_upto(asked, peer, s, i).0, i)),
        reassign_upto(asked, peer, s, i).0.asked_to[i] == Some(peer),
        forall|k: Seq<u8>| #[trigger]
            s.counts.contains_key(k) && k != peer ==> surplus(
                unask(reassign_upto(asked, peer, s, i).0, i),
                k,
            ) == 0,
    decreases i + 1, 0int,
{
    lemma_reassign(asked, peer, s, i);
    let t = reassign_upto(asked, peer, s, i).0;
    let u = unask(t, i);
    assert(t.asked_to[i] == Some(peer));
    assert(s.counts.contains_key(peer));
    lemma_asked_count_bound(asked, peer);
    assert forall|k: Seq<u8>| #[trigger]
        u.counts.contains_key(k) && k != peer implies surplus(u, k) == 0 by {
        lemma_asked_count_update(t.asked_to, i, None, k);
    }
    assert forall|q: int, j: int| live(u, q) && 0 <= j < peers_of(u, q).len() implies u.counts.contains_key(
        #[trigger] peers_of(u, q)[j],
    ) by {
        assert(peers_of(u, q) == peers_of(t, q));
    }
    assert forall|k: Seq<u8>| #[trigger] u.counts.contains_key(k) implies u.counts[k]
        <= asked_count(u.asked_to, k) + u.allowed.len() by {
        if k != peer {
            assert(surplus(u, k) == 0);
        }
    }
}

/// A failed connection keeps the invariant.
pub proof fn lemma_connection_failed(s: PieceManagerModel, peer: Seq<u8>)
    requires
        wf(s),
    ensures
        wf(spec_connection_failed(s, peer).0),
{
    let f = forget_peer(s, peer);
    lemma_forget_peer(s, peer);
    let n = s.allowed.len() as int;
    lemma_reassign(s.asked_to, peer, f, n);
    let t = reassign_upto(s.asked_to, peer, f, n).0;
    let v = spec_connection_failed(s, peer).0;
    assert(v.asked_to == t.asked_to);
    assert forall|q: int, j: int| live(v, q) && 0 <= j < peers_of(v, q).len() implies v.counts.contains_key(
        #[trigger] peers_of(v, q)[j],
    ) by {
        assert(peers_of(v, q) == peers_of(t, q));
        assert(peers_of(t, q) == peers_of(f, q));
    }
    assert forall|q: int| 0 <= q < n && #[trigger] v.asked_to[q] is Some implies v.allowed[q] is Some
        && v.counts.contains_key(v.asked_to[q]->0) by {
        assert(t.asked_to[q] != Some(peer));
    }
    assert forall|k: Seq<u8>| #[trigger] v.counts.contains_key(k) implies v.counts[k]
        == asked_count(v.asked_to, k) by {
        assert(surplus(t, k) == 0);
    }
}


/// What the piece manager does with a message: its next state, the requests it makes, in
/// order, and whether the download is over.
pub open spec fn spec_handle(s: PieceManagerModel, msg: PieceManagerMessage) -> (
    PieceManagerModel,
    Seq<Request>,
    bool,
) {
    match msg {
        PieceManagerMessage::Init(_) => (s, Seq::empty(), false),
        PieceManagerMessage::PeerPieces(peer, bitfield) => {
            let t = spec_update_peers(s, bitfield@, peer@);
            (t, Seq::empty(), all_downloaded(t))
        },
        PieceManagerMessage::FinishedEstablishingConnections(_) => {
            let (t, r) = spec_start(s);
            (t, r, all_downloaded(t))
        },
        PieceManagerMessage::Have(peer, p) => {
            let (t, r) = spec_have(s, peer@, p as int);
            (t, r, all_downloaded(t))
        },
        PieceManagerMessage::ReaskedTracker => {
            let (t, r) = spec_without_peers(s);
            (t, r, all_downloaded(t))
        },
        PieceManagerMessage::SuccessfulDownload(p, peer) => {
            let t = spec_success(s, p as int, peer@);
            (t, Seq::empty(), all_downloaded(t))
        },
        PieceManagerMessage::FailedDownload(p, peer) => {
            let (t, r) = spec_failure(s, p as int, peer@);
            (t, r, all_downloaded(t))
        },
        PieceManagerMessage::FailedConnection(peer) => {
            let (t, r) = spec_connection_failed(s, peer@);
            (t, r, all_downloaded(t))
        },
        PieceManagerMessage::FirstConnectionsStarted => (s, Seq::empty(), all_downloaded(s)),
    }
}

/// Whether the piece manager can take the message without failing: a download's outcome
/// must name the peer that the piece was asked of, and a peer that has a piece that is not
/// downloaded must have a count.
///
/// In the running client these hold: a download is only requested of the peer that the
/// piece manager asked it of, and that peer's worker reports the outcome under that peer's
/// id, directly or through the piece saver; a peer gets its count when its bitfield comes,
/// before anything else is said of it. A message outside them can only come from a report
/// that crosses the report of its peer's failed connection. Taking it would leave a count
/// that is no longer the number of pieces asked of its peer, after which a later outcome of
/// that peer can take its count below zero; the invariant, and each law over it, holds only
/// while every count is exact, so such messages are not taken.
pub open spec fn accepts(s: PieceManagerModel, msg: PieceManagerMessage) -> bool {
    match msg {
        PieceManagerMessage::SuccessfulDownload(p, peer) => p < s.allowed.len() && s.asked_to[p as int]
            == Some(peer@),
        PieceManagerMessage::FailedDownload(p, peer) => p < s.allowed.len() && s.asked_to[p as int]
            == Some(peer@),
        PieceManagerMessage::Have(peer, p) => live(s, p as int) ==> s.counts.contains_key(peer@),
        _ => true,
    }
}

/// Every message that the piece manager accepts keeps its invariant.
pub proof fn lemma_handle(s: PieceManagerModel, msg: PieceManagerMessage)
    requires
        wf(s),
        accepts(s, msg),
    ensures
        wf(spec_handle(s, msg).0),
{
    match msg {
        PieceManagerMessage::PeerPieces(peer, bitfield) => lemma_update_peers(s, bitfield@, peer@),
        PieceManagerMessage::FinishedEstablishingConnections(_) => lemma_start(s),
        PieceManagerMessage::Have(peer, p) => lemma_have(s, peer@, p as int),
        PieceManagerMessage::ReaskedTracker => lemma_without_peers(s),
        PieceManagerMessage::SuccessfulDownload(p, peer) => lemma_success(s, p as int, peer@),
        PieceManagerMessage::FailedDownload(p, peer) => lemma_failure(s, p as int, peer@),
        PieceManagerMessage::FailedConnection(peer) => lemma_connection_failed(s, peer@),
        _ => {},
    }
}

} // verus!
