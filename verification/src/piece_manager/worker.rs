use vstd::prelude::*;

use std::sync::mpsc::Receiver;

use super::model::{
    accepts, all_downloaded, askable, eligible, first_pieces, forget_peer,
    is_least_loaded, is_optimal, leading_available, least_loaded, live,
    optimal_piece, peers_of, reassign_upto, spec_ask, spec_ask_n, spec_connection_failed,
    spec_failure, spec_handle, spec_have, spec_start, spec_success, spec_update_peers,
    spec_without_peers, surplus, unask, waiting_without_peer, wf, without, PieceManagerModel,
    Request, lemma_ask, lemma_ask_n, lemma_asked_count_bound, lemma_asked_count_update,
    lemma_connection_failed, lemma_failure, lemma_failure_unask, lemma_forget_peer, lemma_handle,
    lemma_have, lemma_least_loaded_unique, lemma_optimal_unique, lemma_reassign,
    lemma_reassign_unask, lemma_start, lemma_success, lemma_update_peers, lemma_without_peers,
    lemma_wf_askable,
};
use super::sender::PieceManagerSender;
use super::table::{
    count_map, find_peer, keys_distinct, lemma_count_map_absent, lemma_count_map_at,
    lemma_count_map_push, lemma_count_map_remove, lemma_count_map_set, set_count, table_view,
};
use super::types::PieceManagerMessage;
use crate::bencode::types::equal_bytes;
use crate::peer::types::bitfield_has;
use crate::peer::Bitfield;
use crate::peer_connection_manager::PeerConnectionManagerMessage;
use vstd::pervasive::VecAdditionalExecFns;

verus! {

/// The ids of a sequence of peers.
pub open spec fn ids(v: Seq<Vec<u8>>) -> Seq<Seq<u8>> {
    v.map_values(|x: Vec<u8>| x@)
}

/// The ids of the peers of a piece, if it is not downloaded.
pub open spec fn opt_ids(o: Option<Vec<Vec<u8>>>) -> Option<Seq<Seq<u8>>> {
    match o {
        Some(v) => Some(ids(v@)),
        None => None,
    }
}

/// The id of the peer a piece is asked of, if any.
pub open spec fn opt_id(o: Option<Vec<u8>>) -> Option<Seq<u8>> {
    match o {
        Some(v) => Some(v@),
        None => None,
    }
}

/// Requests as values.
pub open spec fn requests_view(r: Seq<(Vec<u8>, u32)>) -> Seq<Request> {
    r.map_values(|x: (Vec<u8>, u32)| (x.0@, x.1))
}

/// A message for the manager of the connections, as values: a request of a piece from a
/// peer, or the request to close the connections.
pub enum OutgoingMessage {
    Download(Seq<u8>, u32),
    Failed(Seq<u8>),
    Close,
}

/// A message for the manager of the connections, as values.
pub open spec fn outgoing_message_view(m: PeerConnectionManagerMessage) -> OutgoingMessage {
    match m {
        PeerConnectionManagerMessage::DownloadPiece(peer, piece) => OutgoingMessage::Download(
            peer@,
            piece,
        ),
        PeerConnectionManagerMessage::FailedConnection(peer) => OutgoingMessage::Failed(peer@),
        PeerConnectionManagerMessage::CloseConnections => OutgoingMessage::Close,
    }
}

/// Messages for the manager of the connections, as values.
pub open spec fn outgoing_view(ms: Seq<PeerConnectionManagerMessage>) -> Seq<OutgoingMessage> {
    ms.map_values(|m: PeerConnectionManagerMessage| outgoing_message_view(m))
}

/// A download request for each of `requests`, in order.
pub open spec fn download_requests(requests: Seq<Request>) -> Seq<OutgoingMessage> {
    requests.map_values(|r: Request| OutgoingMessage::Download(r.0, r.1))
}

/// What the piece manager hands to the manager of the connections after a message: a
/// download request for each of `requests`, in order, then, when `finished`, the request to
/// close the connections.
pub open spec fn outgoing(requests: Seq<Request>, finished: bool) -> Seq<OutgoingMessage> {
    if finished {
        download_requests(requests).push(OutgoingMessage::Close)
    } else {
        download_requests(requests)
    }
}

/// The state of a download in a fresh piece manager for `n` pieces: every piece waits to be
/// asked for and no peer is known.
pub open spec fn initial_model(n: nat) -> PieceManagerModel {
    PieceManagerModel {
        allowed: Seq::new(n, |p: int| Some(Seq::<Seq<u8>>::empty())),
        ready: Seq::new(n, |p: int| true),
        is_downloading: false,
        asked_to: Seq::new(n, |p: int| None::<Seq<u8>>),
        without_peer: Seq::new(n, |p: int| false),
        counts: Map::empty(),
    }
}

/// The worker of the piece manager: it decides which piece to ask of which peer.
pub struct PieceManagerWorker {
    reciever: Receiver<PieceManagerMessage>,
    allowed_peers_to_download_piece: Vec<Option<Vec<Vec<u8>>>>,
    ready_to_download_pieces: Vec<bool>,
    is_downloading: bool,
    piece_asked_to: Vec<Option<Vec<u8>>>,
    pieces_without_peer: Vec<bool>,
    peer_pieces_to_download_count: Vec<(Vec<u8>, u64)>,
}

/// The most pieces asked for when the download starts.
const FIRST_MIN_CONNECTIONS: usize = 100;

/// How the count of available pieces at the front goes one piece further.
proof fn lemma_leading_step(a: Seq<Option<Seq<Seq<u8>>>>, p: int)
    requires
        0 <= p < a.len(),
    ensures
        leading_available(a.subrange(p, a.len() as int)) == match a[p] {
            None => leading_available(a.subrange(p + 1, a.len() as int)),
            Some(l) => if l.len() > 0 {
                1 + leading_available(a.subrange(p + 1, a.len() as int))
            } else {
                0
            },
        },
{
    let r = a.subrange(p, a.len() as int);
    assert(r.drop_first() =~= a.subrange(p + 1, a.len() as int));
    assert(r[0] == a[p]);
}

/// The peers of `peer_ids` but `peer_id`, in order.
fn retain_other_peers(peer_ids: &Vec<Vec<u8>>, peer_id: &Vec<u8>) -> (r: Vec<Vec<u8>>)
    ensures
        ids(r@) == without(ids(peer_ids@), peer_id@),
{
    let ghost l = ids(peer_ids@);
    let ghost pred = crate::piece_manager::model::other_than(peer_id@);
    let mut r: Vec<Vec<u8>> = Vec::new();
    let mut i: usize = 0;
    proof {
        reveal(Seq::filter);
        assert(l.take(0).filter(pred) =~= Seq::<Seq<u8>>::empty());
    }
    assert(ids(r@) =~= l.take(0).filter(pred));
    while i < peer_ids.len()
        invariant
            i <= peer_ids.len(),
            l == ids(peer_ids@),
            pred == crate::piece_manager::model::other_than(peer_id@),
            ids(r@) == l.take(i as int).filter(pred),
        decreases peer_ids.len() - i,
    {
        proof {
            reveal(Seq::filter);
            assert(l.take(i as int + 1).drop_last() =~= l.take(i as int));
        }
        if !equal_bytes(peer_ids[i].as_slice(), peer_id.as_slice()) {
            r.push(copy_id(&peer_ids[i]));
            assert(ids(r@) =~= l.take(i as int + 1).filter(pred));
        } else {
            assert(ids(r@) =~= l.take(i as int + 1).filter(pred));
        }
        i += 1;
    }
    assert(l.take(i as int) =~= l);
    r
}

/// A copy of a peer id.
fn copy_id(id: &Vec<u8>) -> (r: Vec<u8>)
    ensures
        r@ == id@,
{
    vstd::slice::slice_to_vec(id.as_slice())
}

/// Makes a piece manager for `number_of_pieces` pieces: the sending side of its channel,
/// and its worker.
pub fn new_piece_manager(number_of_pieces: u32) -> (r: (PieceManagerSender, PieceManagerWorker))
    ensures
        r.1.wf(),
        r.1.model() == initial_model(number_of_pieces as nat),
{
    let (tx, rx) = std::sync::mpsc::channel();
    let mut allowed: Vec<Option<Vec<Vec<u8>>>> = Vec::new();
    let mut ready: Vec<bool> = Vec::new();
    let mut asked: Vec<Option<Vec<u8>>> = Vec::new();
    let mut without_peer: Vec<bool> = Vec::new();
    let mut i: u32 = 0;
    while i < number_of_pieces
        invariant
            i <= number_of_pieces,
            allowed@.len() == i,
            ready@.len() == i,
            asked@.len() == i,
            without_peer@.len() == i,
            forall|p: int|
                0 <= p < i ==> #[trigger] opt_ids(allowed@[p]) == Some(Seq::<Seq<u8>>::empty()),
            forall|p: int| 0 <= p < i ==> #[trigger] ready@[p],
            forall|p: int| 0 <= p < i ==> #[trigger] asked@[p] is None,
            forall|p: int| 0 <= p < i ==> !#[trigger] without_peer@[p],
        decreases number_of_pieces - i,
    {
        let empty: Vec<Vec<u8>> = Vec::new();
        assert(ids(empty@) =~= Seq::<Seq<u8>>::empty());
        allowed.push(Some(empty));
        ready.push(true);
        asked.push(None);
        without_peer.push(false);
        i += 1;
    }
    let worker = PieceManagerWorker {
        reciever: rx,
        allowed_peers_to_download_piece: allowed,
        ready_to_download_pieces: ready,
        is_downloading: false,
        piece_asked_to: asked,
        pieces_without_peer: without_peer,
        peer_pieces_to_download_count: Vec::new(),
    };
    let ghost m = worker.model();
    let ghost init = initial_model(number_of_pieces as nat);
    assert(m.allowed =~= init.allowed) by {
        assert forall|p: int| 0 <= p < m.allowed.len() implies m.allowed[p] == init.allowed[p] by {
            assert(opt_ids(worker.allowed_peers_to_download_piece@[p]) == Some(
                Seq::<Seq<u8>>::empty(),
            ));
        }
    }
    assert(m.ready =~= init.ready);
    assert(m.asked_to =~= init.asked_to) by {
        assert forall|p: int| 0 <= p < m.asked_to.len() implies m.asked_to[p] == init.asked_to[p] by {
            assert(worker.piece_asked_to@[p] is None);
        }
    }
    assert(m.without_peer =~= init.without_peer);
    assert(table_view(worker.peer_pieces_to_download_count@) =~= Seq::empty());
    assert(m.counts =~= init.counts);
    (PieceManagerSender { sender: tx }, worker)
}

impl PieceManagerWorker {
    /// The worker's state, as values.
    pub closed spec fn model(&self) -> PieceManagerModel {
        PieceManagerModel {
            allowed: self.allowed_peers_to_download_piece@.map_values(
                |o: Option<Vec<Vec<u8>>>| opt_ids(o),
            ),
            ready: self.ready_to_download_pieces@,
            is_downloading: self.is_downloading,
            asked_to: self.piece_asked_to@.map_values(|o: Option<Vec<u8>>| opt_id(o)),
            without_peer: self.pieces_without_peer@,
            counts: count_map(table_view(self.peer_pieces_to_download_count@)),
        }
    }

    /// The table of counts has each peer once.
    closed spec fn table_ok(&self) -> bool {
        keys_distinct(table_view(self.peer_pieces_to_download_count@))
    }

    /// The worker's invariant.
    pub closed spec fn wf(&self) -> bool {
        self.table_ok() && wf(self.model())
    }

    /// The worker's invariant gives the invariant of its state.
    pub proof fn lemma_wf_model(&self)
        requires
            self.wf(),
        ensures
            wf(self.model()),
    {
    }

    /// The receiving side of the channel that the worker takes its messages from.
    pub closed spec fn receiving_side(&self) -> Receiver<PieceManagerMessage> {
        self.reciever
    }

    /// The receiving side of the piece manager's channel.
    pub fn reciever(&self) -> (r: &Receiver<PieceManagerMessage>)
        ensures
            *r == self.receiving_side(),
    {
        &self.reciever
    }

    /// The position in the table of a peer that has a count, and its count.
    fn count_of(&self, peer: &Vec<u8>) -> (r: (usize, u64))
        requires
            self.table_ok(),
            self.model().counts.contains_key(peer@),
        ensures
            r.0 < self.peer_pieces_to_download_count@.len(),
            self.peer_pieces_to_download_count@[r.0 as int].0@ == peer@,
            r.1 as nat == self.model().counts[peer@],
    {
        let t = &self.peer_pieces_to_download_count;
        match find_peer(t, peer.as_slice()) {
            Some(i) => {
                proof {
                    lemma_count_map_at(table_view(t@), i as int);
                }
                (i, t[i].1)
            },
            None => {
                proof {
                    assert forall|i: int| 0 <= i < table_view(t@).len() implies #[trigger] table_view(
                        t@,
                    )[i].0 != peer@ by {
                        assert(t@[i].0@ != peer@);
                    }
                    lemma_count_map_absent(table_view(t@), peer@);
                }
                (0, 0)
            },
        }
    }

    /// The first of the eligible pieces with the fewest peers, if any.
    fn get_optimal_piece_to_download(&self) -> (r: Option<u32>)
        requires
            askable(self.model()),
        ensures
            match r {
                Some(p) => optimal_piece(self.model()) == Some(p as int),
                None => optimal_piece(self.model()) is None,
            },
    {
        let ghost m = self.model();
        let n = self.allowed_peers_to_download_piece.len();
        let mut best: Option<usize> = None;
        let mut max_peers: usize = 50;
        let mut p: usize = 0;
        while p < n
            invariant
                m == self.model(),
                askable(m),
                n == m.allowed.len(),
                p <= n,
                match best {
                    Some(b) => {
                        &&& b < p
                        &&& eligible(m, b as int)
                        &&& max_peers == peers_of(m, b as int).len()
                        &&& forall|q: int|
                            0 <= q < p && #[trigger] eligible(m, q) ==> peers_of(m, b as int).len()
                                <= peers_of(m, q).len()
                        &&& forall|q: int|
                            0 <= q < b && #[trigger] eligible(m, q) ==> peers_of(m, b as int).len()
                                < peers_of(m, q).len()
                    },
                    None => max_peers == 50 && forall|q: int| 0 <= q < p ==> !#[trigger] eligible(m, q),
                },
            decreases n - p,
        {
            if self.ready_to_download_pieces[p] {
                match &self.allowed_peers_to_download_piece[p] {
                    Some(peer_ids) => {
                        if peer_ids.len() != 0 && peer_ids.len() < max_peers {
                            best = Some(p);
                            max_peers = peer_ids.len();
                        }
                    },
                    None => {},
                }
            }
            p += 1;
        }
        match best {
            Some(b) => {
                proof {
                    assert(is_optimal(m, b as int));
                    let c = choose|c: int| is_optimal(m, c);
                    lemma_optimal_unique(m, b as int, c);
                }
                Some(b as u32)
            },
            None => {
                proof {
                    if exists|c: int| is_optimal(m, c) {
                        let c = choose|c: int| is_optimal(m, c);
                        assert(eligible(m, c));
                    }
                }
                None
            },
        }
    }

    /// The first position among the peers of the piece `p` whose peer has the fewest pieces
    /// asked of it.
    fn least_loaded_peer(&self, p: usize) -> (j: usize)
        requires
            self.table_ok(),
            askable(self.model()),
            live(self.model(), p as int),
            peers_of(self.model(), p as int).len() > 0,
        ensures
            j as int == least_loaded(peers_of(self.model(), p as int), self.model().counts),
            j < peers_of(self.model(), p as int).len(),
    {
        let ghost m = self.model();
        let ghost l = peers_of(m, p as int);
        match &self.allowed_peers_to_download_piece[p] {
            Some(peer_ids) => {
                assert(ids(peer_ids@) == l);
                assert(m.counts.contains_key(l[0]));
                let (_, first) = self.count_of(&peer_ids[0]);
                let mut best: usize = 0;
                let mut best_count: u64 = first;
                let mut i: usize = 1;
                while i < peer_ids.len()
                    invariant
                        m == self.model(),
                        self.table_ok(),
                        askable(m),
                        live(m, p as int),
                        l == peers_of(m, p as int),
                        ids(peer_ids@) == l,
                        1 <= i <= l.len(),
                        best < i,
                        best_count as nat == m.counts[l[best as int]],
                        forall|k: int| 0 <= k < i ==> best_count <= m.counts[#[trigger] l[k]],
                        forall|k: int| 0 <= k < best ==> best_count < m.counts[#[trigger] l[k]],
                    decreases peer_ids.len() - i,
                {
                    assert(m.counts.contains_key(l[i as int]));
                    let (_, c) = self.count_of(&peer_ids[i]);
                    if c < best_count {
                        best = i;
                        best_count = c;
                    }
                    i += 1;
                }
                proof {
                    assert(is_least_loaded(l, m.counts, best as int));
                    let c = choose|c: int| is_least_loaded(l, m.counts, c);
                    lemma_least_loaded_unique(l, m.counts, best as int, c);
                }
                best
            },
            None => {
                assert(false);
                0
            },
        }
    }

    /// Asks for the optimal piece, if there is one, the peer of that piece with the fewest
    /// pieces asked of it, and records the request.
    fn ask_for_piece(&mut self, requests: &mut Vec<(Vec<u8>, u32)>)
        requires
            old(self).table_ok(),
            askable(old(self).model()),
        ensures
            final(self).table_ok(),
            final(self).model() == spec_ask(old(self).model()).0,
            requests_view(final(requests)@) == requests_view(old(requests)@) + spec_ask(
                old(self).model(),
            ).1,
    {
        let ghost m = self.model();
        proof {
            lemma_ask(m);
        }
        match self.get_optimal_piece_to_download() {
            None => {
                assert(requests_view(requests@) =~= requests_view(requests@) + spec_ask(m).1);
            },
            Some(piece) => {
                let p = piece as usize;
                assert(is_optimal(m, p as int));
                let j = self.least_loaded_peer(p);
                let peer: Vec<u8> = match &self.allowed_peers_to_download_piece[p] {
                    Some(peer_ids) => copy_id(&peer_ids[j]),
                    None => {
                        assert(false);
                        Vec::new()
                    },
                };
                assert(peer@ == peers_of(m, p as int)[j as int]);
                assert(m.counts.contains_key(peer@));
                self.ready_to_download_pieces.set(p, false);
                self.piece_asked_to.set(p, Some(copy_id(&peer)));
                if self.pieces_without_peer[p] {
                    self.pieces_without_peer.set(p, false);
                }
                let (ti, c) = self.count_of(&peer);
                proof {
                    lemma_asked_count_bound(m.asked_to, peer@);
                    lemma_count_map_set(
                        table_view(self.peer_pieces_to_download_count@),
                        ti as int,
                        (c + 1) as nat,
                    );
                }
                set_count(&mut self.peer_pieces_to_download_count, ti, c + 1);
                requests.push((peer, piece));
                let ghost t = spec_ask(m).0;
                assert(self.model().ready =~= t.ready);
                assert(self.model().asked_to =~= t.asked_to);
                assert(self.model().without_peer =~= t.without_peer);
                assert(self.model().allowed =~= t.allowed);
                assert(self.model().counts =~= t.counts);
                assert(requests_view(requests@) =~= requests_view(old(requests)@) + spec_ask(
                    m,
                ).1);
            },
        }
    }

    /// Asks for a piece `k` times in a row.
    fn ask_n(&mut self, k: usize, requests: &mut Vec<(Vec<u8>, u32)>)
        requires
            old(self).table_ok(),
            askable(old(self).model()),
        ensures
            final(self).table_ok(),
            final(self).model() == spec_ask_n(old(self).model(), k as nat).0,
            requests_view(final(requests)@) == requests_view(old(requests)@) + spec_ask_n(
                old(self).model(),
                k as nat,
            ).1,
    {
        let ghost m = self.model();
        let ghost r0 = requests_view(requests@);
        let mut i: usize = 0;
        assert(r0 =~= r0 + spec_ask_n(m, 0).1);
        while i < k
            invariant
                i <= k,
                askable(m),
                self.table_ok(),
                self.model() == spec_ask_n(m, i as nat).0,
                requests_view(requests@) == r0 + spec_ask_n(m, i as nat).1,
            decreases k - i,
        {
            proof {
                lemma_ask_n(m, i as nat);
            }
            let ghost before = requests_view(requests@);
            self.ask_for_piece(requests);
            assert(requests_view(requests@) =~= r0 + spec_ask_n(m, (i + 1) as nat).1);
            i += 1;
        }
    }

    /// Whether every piece has been downloaded.
    fn last_piece_downloaded(&self) -> (r: bool)
        ensures
            r == all_downloaded(self.model()),
    {
        let n = self.allowed_peers_to_download_piece.len();
        let mut p: usize = 0;
        while p < n
            invariant
                p <= n,
                n == self.model().allowed.len(),
                forall|q: int| 0 <= q < p ==> #[trigger] self.model().allowed[q] is None,
            decreases n - p,
        {
            if self.allowed_peers_to_download_piece[p].is_some() {
                assert(self.model().allowed[p as int] is Some);
                return false;
            }
            p += 1;
        }
        true
    }

    /// The piece `piece_index` was downloaded from `peer_id`.
    fn piece_succesfully_downloaded(&mut self, piece_index: u32, peer_id: Vec<u8>)
        requires
            old(self).wf(),
            piece_index < old(self).model().allowed.len(),
            old(self).model().asked_to[piece_index as int] == Some(peer_id@),
        ensures
            final(self).wf(),
            final(self).model() == spec_success(old(self).model(), piece_index as int, peer_id@),
    {
        let ghost m = self.model();
        let p = piece_index as usize;
        proof {
            lemma_success(m, p as int, peer_id@);
            lemma_asked_count_update(m.asked_to, p as int, None, peer_id@);
        }
        assert(m.counts.contains_key(peer_id@));
        let (ti, c) = self.count_of(&peer_id);
        self.ready_to_download_pieces.set(p, false);
        self.allowed_peers_to_download_piece.set(p, None);
        self.piece_asked_to.set(p, None);
        proof {
            lemma_count_map_set(
                table_view(self.peer_pieces_to_download_count@),
                ti as int,
                (c - 1) as nat,
            );
        }
        set_count(&mut self.peer_pieces_to_download_count, ti, c - 1);
        let ghost t = spec_success(m, p as int, peer_id@);
        assert(self.model().ready =~= t.ready);
        assert(self.model().asked_to =~= t.asked_to);
        assert(self.model().allowed =~= t.allowed);
        assert(self.model().counts =~= t.counts);
    }

    /// The download of the piece `piece_index` from `peer_id` failed.
    fn piece_failed_download(
        &mut self,
        piece_index: u32,
        peer_id: Vec<u8>,
        requests: &mut Vec<(Vec<u8>, u32)>,
    )
        requires
            old(self).wf(),
            piece_index < old(self).model().allowed.len(),
            old(self).model().asked_to[piece_index as int] == Some(peer_id@),
        ensures
            final(self).wf(),
            final(self).model() == spec_failure(old(self).model(), piece_index as int, peer_id@).0,
            requests_view(final(requests)@) == requests_view(old(requests)@) + spec_failure(
                old(self).model(),
                piece_index as int,
                peer_id@,
            ).1,
    {
        let ghost m = self.model();
        let p = piece_index as usize;
        proof {
            lemma_failure_unask(m, p as int, peer_id@);
            lemma_failure(m, p as int, peer_id@);
        }
        self.ready_to_download_pieces.set(p, true);
        self.piece_asked_to.set(p, None);
        let ghost u = unask(m, p as int);
        assert(self.model().ready =~= u.ready);
        assert(self.model().asked_to =~= u.asked_to);
        assert(self.model() == u);
        self.ask_for_piece(requests);
        proof {
            lemma_ask(u);
        }
        let ghost v = spec_ask(u).0;
        assert(surplus(v, peer_id@) == 1);
        assert(v.counts.contains_key(peer_id@));
        let (ti, c) = self.count_of(&peer_id);
        proof {
            lemma_count_map_set(
                table_view(self.peer_pieces_to_download_count@),
                ti as int,
                (c - 1) as nat,
            );
        }
        set_count(&mut self.peer_pieces_to_download_count, ti, c - 1);
        assert(self.model().counts =~= spec_failure(m, p as int, peer_id@).0.counts);
    }

    /// The peer `peer_id` has the pieces of `bitfield`.
    fn update_peers_per_piece(&mut self, bitfield: &Bitfield, peer_id: Vec<u8>)
        requires
            old(self).wf(),
        ensures
            final(self).wf(),
            final(self).model() == spec_update_peers(old(self).model(), bitfield@, peer_id@),
    {
        let ghost m = self.model();
        let ghost t = spec_update_peers(m, bitfield@, peer_id@);
        proof {
            lemma_update_peers(m, bitfield@, peer_id@);
        }
        let n = self.allowed_peers_to_download_piece.len();
        let mut any = false;
        let mut p: usize = 0;
        while p < n
            invariant
                p <= n,
                n == m.allowed.len(),
                self.allowed_peers_to_download_piece@.len() == n,
                forall|q: int| 0 <= q < p ==> #[trigger] self.model().allowed[q] == t.allowed[q],
                forall|q: int| p <= q < n ==> #[trigger] self.model().allowed[q] == m.allowed[q],
                self.ready_to_download_pieces == old(self).ready_to_download_pieces,
                self.piece_asked_to == old(self).piece_asked_to,
                self.pieces_without_peer == old(self).pieces_without_peer,
                self.is_downloading == old(self).is_downloading,
                self.peer_pieces_to_download_count == old(self).peer_pieces_to_download_count,
                any == exists|q: int| 0 <= q < p && live(m, q) && #[trigger] bitfield_has(bitfield@, q),
                m == old(self).model(),
                t == spec_update_peers(m, bitfield@, peer_id@),
            decreases n - p,
        {
            let ghost prev = self.model().allowed;
            let ghost prev_vec = self.allowed_peers_to_download_piece@;
            if bitfield.has_piece(p) {
                assert(self.model().allowed[p as int] == m.allowed[p as int]);
                let mut entry: Option<Vec<Vec<u8>>> = None;
                self.allowed_peers_to_download_piece.set_and_swap(p, &mut entry);
                assert(opt_ids(entry) == m.allowed[p as int]);
                let updated = match entry {
                    Some(peer_ids) => {
                        let mut peer_ids = peer_ids;
                        peer_ids.push(copy_id(&peer_id));
                        any = true;
                        assert(live(m, p as int) && bitfield_has(bitfield@, p as int));
                        Some(peer_ids)
                    },
                    None => None,
                };
                self.allowed_peers_to_download_piece.set(p, updated);
                proof {
                    if m.allowed[p as int] is Some {
                        assert(ids(updated->0@) =~= peers_of(m, p as int).push(peer_id@));
                    }
                }
            }
            assert(self.model().allowed[p as int] == t.allowed[p as int]);
            assert forall|q: int| 0 <= q < n && q != p implies #[trigger] self.model().allowed[q]
                == prev[q] by {
                assert(self.allowed_peers_to_download_piece@[q] == prev_vec[q]);
            }
            p += 1;
        }
        assert(self.model().allowed =~= t.allowed);
        assert(any == crate::piece_manager::model::has_some_live(m, bitfield@));
        if any {
            match find_peer(&self.peer_pieces_to_download_count, peer_id.as_slice()) {
                Some(i) => {
                    proof {
                        lemma_count_map_at(table_view(self.peer_pieces_to_download_count@), i as int);
                    }
                },
                None => {
                    proof {
                        let tv = table_view(self.peer_pieces_to_download_count@);
                        assert forall|i: int| 0 <= i < tv.len() implies #[trigger] tv[i].0
                            != peer_id@ by {
                            assert(self.peer_pieces_to_download_count@[i].0@ != peer_id@);
                        }
                        lemma_count_map_absent(tv, peer_id@);
                        lemma_count_map_push(tv, peer_id@, 0);
                    }
                    self.peer_pieces_to_download_count.push((peer_id, 0));
                    assert(table_view(self.peer_pieces_to_download_count@) =~= table_view(
                        old(self).peer_pieces_to_download_count@,
                    ).push((peer_id@, 0nat)));
                },
            }
        }
        assert(self.model().counts =~= t.counts);
    }

    /// The peer `peer_id` has the piece `piece_number`.
    fn received_have(
        &mut self,
        peer_id: Vec<u8>,
        piece_number: u32,
        requests: &mut Vec<(Vec<u8>, u32)>,
    )
        requires
            old(self).wf(),
            live(old(self).model(), piece_number as int) ==> old(self).model().counts.contains_key(
                peer_id@,
            ),
        ensures
            final(self).wf(),
            final(self).model() == spec_have(old(self).model(), peer_id@, piece_number as int).0,
            requests_view(final(requests)@) == requests_view(old(requests)@) + spec_have(
                old(self).model(),
                peer_id@,
                piece_number as int,
            ).1,
    {
        let ghost m = self.model();
        proof {
            lemma_have(m, peer_id@, piece_number as int);
        }
        let p = piece_number as usize;
        if p < self.allowed_peers_to_download_piece.len()
            && self.allowed_peers_to_download_piece[p].is_some() {
            let ghost l = peers_of(m, p as int);
            let mut entry: Option<Vec<Vec<u8>>> = None;
            self.allowed_peers_to_download_piece.set_and_swap(p, &mut entry);
            let updated = match entry {
                Some(peer_ids) => {
                    let mut peer_ids = peer_ids;
                    peer_ids.push(peer_id);
                    Some(peer_ids)
                },
                None => None,
            };
            assert(ids(updated->0@) =~= l.push(peer_id@));
            self.allowed_peers_to_download_piece.set(p, updated);
            let ghost t = crate::piece_manager::model::add_have(m, peer_id@, p as int);
            assert(self.model().allowed =~= t.allowed);
            assert(self.model() == t);
            if self.is_downloading && self.pieces_without_peer[p] {
                proof {
                    lemma_wf_askable(t);
                }
                self.ask_for_piece(requests);
            } else {
                assert(requests_view(requests@) =~= requests_view(old(requests)@) + Seq::<
                    Request,
                >::empty());
            }
        } else {
            assert(requests_view(requests@) =~= requests_view(old(requests)@) + Seq::<
                Request,
            >::empty());
        }
    }

    /// Asks for as many pieces as there are available pieces at the front, at most 100.
    fn ask_for_first_pieces(&mut self, requests: &mut Vec<(Vec<u8>, u32)>)
        requires
            old(self).table_ok(),
            askable(old(self).model()),
        ensures
            final(self).table_ok(),
            final(self).model() == spec_ask_n(old(self).model(), first_pieces(old(self).model())).0,
            requests_view(final(requests)@) == requests_view(old(requests)@) + spec_ask_n(
                old(self).model(),
                first_pieces(old(self).model()),
            ).1,
    {
        let ghost m = self.model();
        let ghost a = m.allowed;
        let n = self.allowed_peers_to_download_piece.len();
        let mut k: usize = 0;
        let mut p: usize = 0;
        let mut blocked = false;
        assert(a.subrange(0, n as int) =~= a);
        while p < n && !blocked && k < FIRST_MIN_CONNECTIONS
            invariant
                p <= n,
                n == a.len(),
                a == self.model().allowed,
                k <= FIRST_MIN_CONNECTIONS,
                blocked ==> k == leading_available(a),
                !blocked ==> k + leading_available(a.subrange(p as int, n as int))
                    == leading_available(a),
            decreases n - p,
        {
            proof {
                lemma_leading_step(a, p as int);
            }
            match &self.allowed_peers_to_download_piece[p] {
                None => {},
                Some(peer_ids) => {
                    if peer_ids.len() != 0 {
                        k += 1;
                    } else {
                        blocked = true;
                    }
                },
            }
            p += 1;
        }
        proof {
            if !blocked && p == n {
                assert(a.subrange(n as int, n as int).len() == 0);
            }
        }
        assert(k as nat == first_pieces(m));
        self.ask_n(k, requests);
    }

    /// Starts the download.
    fn start_downloading(&mut self, requests: &mut Vec<(Vec<u8>, u32)>)
        requires
            old(self).wf(),
        ensures
            final(self).wf(),
            final(self).model() == spec_start(old(self).model()).0,
            requests_view(final(requests)@) == requests_view(old(requests)@) + spec_start(
                old(self).model(),
            ).1,
    {
        let ghost m = self.model();
        proof {
            lemma_start(m);
        }
        self.is_downloading = true;
        let ghost t = PieceManagerModel { is_downloading: true, ..m };
        assert(self.model() == t);
        proof {
            lemma_wf_askable(t);
        }
        self.ask_for_first_pieces(requests);
    }

    /// Asks for a piece once for each piece that is without a peer and not downloaded.
    fn ask_for_pieces_without_peers(&mut self, requests: &mut Vec<(Vec<u8>, u32)>)
        requires
            old(self).wf(),
        ensures
            final(self).wf(),
            final(self).model() == spec_without_peers(old(self).model()).0,
            requests_view(final(requests)@) == requests_view(old(requests)@) + spec_without_peers(
                old(self).model(),
            ).1,
    {
        let ghost m = self.model();
        proof {
            lemma_without_peers(m);
            lemma_wf_askable(m);
        }
        let n = self.allowed_peers_to_download_piece.len();
        let mut k: usize = 0;
        let mut p: usize = 0;
        while p < n
            invariant
                p <= n,
                n == m.allowed.len(),
                m == self.model(),
                wf(m),
                k <= p,
                k as nat == waiting_without_peer(m, p as int),
            decreases n - p,
        {
            if self.pieces_without_peer[p] && self.allowed_peers_to_download_piece[p].is_some() {
                k += 1;
            }
            p += 1;
        }
        self.ask_n(k, requests);
    }

    /// The connection with `peer_id` failed.
    fn connection_failed(&mut self, peer_id: Vec<u8>, requests: &mut Vec<(Vec<u8>, u32)>)
        requires
            old(self).wf(),
        ensures
            final(self).wf(),
            final(self).model() == spec_connection_failed(old(self).model(), peer_id@).0,
            requests_view(final(requests)@) == requests_view(old(requests)@)
                + spec_connection_failed(old(self).model(), peer_id@).1,
    {
        let ghost m = self.model();
        let ghost f = forget_peer(m, peer_id@);
        let ghost r0 = requests_view(requests@);
        proof {
            lemma_forget_peer(m, peer_id@);
            lemma_connection_failed(m, peer_id@);
        }
        let n = self.allowed_peers_to_download_piece.len();
        // take the peer out of every piece's peers
        let mut p: usize = 0;
        while p < n
            invariant
                p <= n,
                n == m.allowed.len(),
                self.allowed_peers_to_download_piece@.len() == n,
                forall|q: int| 0 <= q < p ==> #[trigger] self.model().allowed[q] == f.allowed[q],
                forall|q: int| p <= q < n ==> #[trigger] self.model().allowed[q] == m.allowed[q],
                self.ready_to_download_pieces == old(self).ready_to_download_pieces,
                self.piece_asked_to == old(self).piece_asked_to,
                self.pieces_without_peer == old(self).pieces_without_peer,
                self.is_downloading == old(self).is_downloading,
                self.peer_pieces_to_download_count == old(self).peer_pieces_to_download_count,
                m == old(self).model(),
                f == forget_peer(m, peer_id@),
            decreases n - p,
        {
            let ghost prev = self.model().allowed;
            let ghost prev_vec = self.allowed_peers_to_download_piece@;
            assert(self.model().allowed[p as int] == m.allowed[p as int]);
            let mut entry: Option<Vec<Vec<u8>>> = None;
            self.allowed_peers_to_download_piece.set_and_swap(p, &mut entry);
            assert(opt_ids(entry) == m.allowed[p as int]);
            let updated = match entry {
                Some(peer_ids) => Some(retain_other_peers(&peer_ids, &peer_id)),
                None => None,
            };
            self.allowed_peers_to_download_piece.set(p, updated);
            assert(self.model().allowed[p as int] == f.allowed[p as int]);
            assert forall|q: int| 0 <= q < n && q != p implies #[trigger] self.model().allowed[q]
                == prev[q] by {
                assert(self.allowed_peers_to_download_piece@[q] == prev_vec[q]);
            }
            p += 1;
        }
        assert(self.model().allowed =~= f.allowed);
        assert(self.model() == f);
        // the pieces that were asked of the peer
        let mut was_asked: Vec<bool> = Vec::new();
        let mut q: usize = 0;
        while q < n
            invariant
                q <= n,
                n == m.allowed.len(),
                self.model() == f,
                f == forget_peer(m, peer_id@),
                wf(m),
                was_asked@.len() == q,
                forall|j: int| 0 <= j < q ==> #[trigger] was_asked@[j] == (m.asked_to[j] == Some(
                    peer_id@,
                )),
            decreases n - q,
        {
            let asked_of_peer = match &self.piece_asked_to[q] {
                Some(asked_peer) => equal_bytes(asked_peer.as_slice(), peer_id.as_slice()),
                None => false,
            };
            was_asked.push(asked_of_peer);
            q += 1;
        }
        // each of them waits again, and a piece is asked for in its place
        let ghost asked0 = m.asked_to;
        assert(r0 =~= r0 + reassign_upto(asked0, peer_id@, f, 0).1);
        let mut p: usize = 0;
        while p < n
            invariant
                p <= n,
                n == m.allowed.len(),
                n == f.allowed.len(),
                wf(f),
                f.asked_to == asked0,
                forall|q: int, j: int|
                    live(f, q) && 0 <= j < peers_of(f, q).len() ==> #[trigger] peers_of(f, q)[j]
                        != peer_id@,
                was_asked@.len() == n,
                forall|j: int| 0 <= j < n ==> #[trigger] was_asked@[j] == (asked0[j] == Some(
                    peer_id@,
                )),
                self.table_ok(),
                self.model() == reassign_upto(asked0, peer_id@, f, p as int).0,
                requests_view(requests@) == r0 + reassign_upto(asked0, peer_id@, f, p as int).1,
            decreases n - p,
        {
            proof {
                lemma_reassign(asked0, peer_id@, f, p as int);
            }
            if was_asked[p] {
                let ghost t = reassign_upto(asked0, peer_id@, f, p as int).0;
                proof {
                    lemma_reassign_unask(asked0, peer_id@, f, p as int);
                }
                self.piece_asked_to.set(p, None);
                self.ready_to_download_pieces.set(p, true);
                let ghost u = unask(t, p as int);
                assert(self.model().ready =~= u.ready);
                assert(self.model().asked_to =~= u.asked_to);
                assert(self.model() == u);
                self.ask_for_piece(requests);
            }
            assert(requests_view(requests@) =~= r0 + reassign_upto(
                asked0,
                peer_id@,
                f,
                p as int + 1,
            ).1);
            p += 1;
        }
        // the peer's count is dropped
        let ghost t = reassign_upto(asked0, peer_id@, f, n as int).0;
        match find_peer(&self.peer_pieces_to_download_count, peer_id.as_slice()) {
            Some(i) => {
                let ghost before = self.peer_pieces_to_download_count@;
                proof {
                    lemma_count_map_remove(table_view(before), i as int);
                }
                let _ = self.peer_pieces_to_download_count.remove(i);
                assert(table_view(self.peer_pieces_to_download_count@) =~= table_view(
                    before,
                ).remove(i as int));
            },
            None => {
                proof {
                    let tv = table_view(self.peer_pieces_to_download_count@);
                    assert forall|i: int| 0 <= i < tv.len() implies #[trigger] tv[i].0 != peer_id@ by {
                        assert(self.peer_pieces_to_download_count@[i].0@ != peer_id@);
                    }
                    lemma_count_map_absent(tv, peer_id@);
                }
                assert(t.counts.remove(peer_id@) =~= t.counts);
            },
        }
        assert(self.model().counts =~= t.counts.remove(peer_id@));
    }

    /// Takes a message: updates the state, and returns the requests to make, in order, and
    /// whether every piece has been downloaded.
    pub fn handle_message(&mut self, message: PieceManagerMessage) -> (r: (
        Vec<(Vec<u8>, u32)>,
        bool,
    ))
        requires
            old(self).wf(),
            accepts(old(self).model(), message),
        ensures
            final(self).wf(),
            (final(self).model(), requests_view(r.0@), r.1) == spec_handle(
                old(self).model(),
                message,
            ),
    {
        let ghost m = self.model();
        proof {
            lemma_handle(m, message);
        }
        let mut requests: Vec<(Vec<u8>, u32)> = Vec::new();
        assert(requests_view(requests@) =~= Seq::<Request>::empty());
        match message {
            PieceManagerMessage::Init(_) => {
                return (requests, false);
            },
            PieceManagerMessage::PeerPieces(peer_id, bitfield) => {
                self.update_peers_per_piece(&bitfield, peer_id);
            },
            PieceManagerMessage::FinishedEstablishingConnections(_) => {
                self.start_downloading(&mut requests);
            },
            PieceManagerMessage::Have(peer_id, piece_number) => {
                self.received_have(peer_id, piece_number, &mut requests);
            },
            PieceManagerMessage::ReaskedTracker => {
                self.ask_for_pieces_without_peers(&mut requests);
            },
            PieceManagerMessage::SuccessfulDownload(piece_index, peer_id) => {
                self.piece_succesfully_downloaded(piece_index, peer_id);
            },
            PieceManagerMessage::FailedDownload(piece_index, peer_id) => {
                self.piece_failed_download(piece_index, peer_id, &mut requests);
            },
            PieceManagerMessage::FailedConnection(peer_id) => {
                self.connection_failed(peer_id, &mut requests);
            },
            PieceManagerMessage::FirstConnectionsStarted => {},
        }
        assert(requests_view(requests@) =~= spec_handle(m, message).1);
        let finished = self.last_piece_downloaded();
        (requests, finished)
    }

    /// Whether the worker can take the message: a download's outcome must name the peer that
    /// the piece was asked of, and a peer that has a piece that is not downloaded must have
    /// sent its bitfield.
    pub fn accepts(&self, message: &PieceManagerMessage) -> (r: bool)
        requires
            self.wf(),
        ensures
            r == accepts(self.model(), *message),
    {
        let n = self.allowed_peers_to_download_piece.len();
        match message {
            PieceManagerMessage::SuccessfulDownload(piece_index, peer_id)
            | PieceManagerMessage::FailedDownload(piece_index, peer_id) => {
                let p = *piece_index as usize;
                if p < n {
                    match &self.piece_asked_to[p] {
                        Some(asked_peer) => equal_bytes(asked_peer.as_slice(), peer_id.as_slice()),
                        None => false,
                    }
                } else {
                    false
                }
            },
            PieceManagerMessage::Have(peer_id, piece_number) => {
                let p = *piece_number as usize;
                if p < n && self.allowed_peers_to_download_piece[p].is_some() {
                    match find_peer(&self.peer_pieces_to_download_count, peer_id.as_slice()) {
                        Some(i) => {
                            proof {
                                lemma_count_map_at(
                                    table_view(self.peer_pieces_to_download_count@),
                                    i as int,
                                );
                            }
                            true
                        },
                        None => {
                            proof {
                                let tv = table_view(self.peer_pieces_to_download_count@);
                                assert forall|i: int| 0 <= i < tv.len() implies #[trigger] tv[i].0
                                    != peer_id@ by {
                                    assert(self.peer_pieces_to_download_count@[i].0@ != peer_id@);
                                }
                                lemma_count_map_absent(tv, peer_id@);
                            }
                            false
                        },
                    }
                } else {
                    true
                }
            },
            _ => true,
        }
    }

    /// Takes a message and gives what is to be handed to the manager of the connections, in
    /// order: a request for each piece asked for, then, once every piece has been
    /// downloaded, the request to close the connections. Also returns whether every piece
    /// has been downloaded.
    pub fn handle_and_forward(&mut self, message: PieceManagerMessage) -> (r: (
        Vec<PeerConnectionManagerMessage>,
        bool,
    ))
        requires
            old(self).wf(),
            accepts(old(self).model(), message),
        ensures
            final(self).wf(),
            final(self).model() == spec_handle(old(self).model(), message).0,
            r.1 == spec_handle(old(self).model(), message).2,
            outgoing_view(r.0@) == outgoing(
                spec_handle(old(self).model(), message).1,
                spec_handle(old(self).model(), message).2,
            ),
    {
        let (requests, finished) = self.handle_message(message);
        let mut outgoing_messages: Vec<PeerConnectionManagerMessage> = Vec::new();
        let mut i: usize = 0;
        while i < requests.len()
            invariant
                i <= requests.len(),
                outgoing_view(outgoing_messages@) == download_requests(requests_view(
                    requests@,
                ).take(i as int)),
            decreases requests.len() - i,
        {
            let (peer_id, piece_index) = &requests[i];
            let ghost before = outgoing_messages@;
            outgoing_messages.push(
                PeerConnectionManagerMessage::download_piece(copy_id(peer_id), *piece_index),
            );
            proof {
                let rv = requests_view(requests@);
                assert(rv[i as int] == (requests@[i as int].0@, requests@[i as int].1));
                assert(download_requests(rv.take(i as int + 1)) =~= download_requests(
                    rv.take(i as int),
                ).push(OutgoingMessage::Download(rv[i as int].0, rv[i as int].1)));
                assert(outgoing_view(outgoing_messages@) =~= outgoing_view(before).push(
                    OutgoingMessage::Download(rv[i as int].0, rv[i as int].1),
                ));
            }
            i += 1;
        }
        assert(requests_view(requests@).take(i as int) =~= requests_view(requests@));
        if finished {
            let ghost before = outgoing_messages@;
            outgoing_messages.push(PeerConnectionManagerMessage::close_connections());
            assert(outgoing_view(outgoing_messages@) =~= outgoing_view(before).push(
                OutgoingMessage::Close,
            ));
        }
        (outgoing_messages, finished)
    }
}

} // verus!
