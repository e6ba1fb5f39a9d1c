use vstd::prelude::*;

use super::types::PeerConnectionManagerMessage;
use crate::bencode::types::equal_bytes;
use crate::peer::Peer;

verus! {

/// An open connection, as the manager of the connections knows it: the peer, the handle
/// `C` through which the connection is driven, whether it is still open, and how many pieces
/// were requested through it.
pub struct ManagedConnection<C> {
    pub peer: Peer,
    pub connection: C,
    pub is_open: bool,
    pub piece_request_count: u32,
}

/// What the manager of the connections does with a message.
pub enum ManagerAction {
    /// Ask the connection at this position for the piece with this index.
    Forward(usize, u32),
    /// Tell the piece manager that the download of this piece from this peer failed.
    ReportFailedDownload(Vec<u8>, u32),
    /// Tell the piece manager that the connection with this peer failed.
    ReportFailedConnection(Vec<u8>),
    /// Close every connection and stop.
    CloseAll,
}

/// The connections of the manager, one per peer id, in the order they were added.
pub struct PeerConnections<C> {
    entries: Vec<(Vec<u8>, ManagedConnection<C>)>,
}

/// An entry of the table, as values: the peer id, whether it is open, and its request count.
pub open spec fn entry_view<C>(e: (Vec<u8>, ManagedConnection<C>)) -> (Seq<u8>, bool, u32) {
    (e.0@, e.1.is_open, e.1.piece_request_count)
}

/// No peer id occurs twice.
pub open spec fn ids_distinct(t: Seq<(Seq<u8>, bool, u32)>) -> bool {
    forall|i: int, j: int| 0 <= i < j < t.len() ==> #[trigger] t[i].0 != #[trigger] t[j].0
}

/// The position of the peer `id`, if it has a connection.
pub open spec fn position_of(t: Seq<(Seq<u8>, bool, u32)>, id: Seq<u8>) -> Option<int> {
    if exists|i: int| 0 <= i < t.len() && t[i].0 == id {
        Some(choose|i: int| 0 <= i < t.len() && t[i].0 == id)
    } else {
        None
    }
}

/// What a message does to the table, and the action that follows. A download request for a
/// peer whose connection is open is forwarded to it, and its count grows by one; one for a
/// closed connection goes back to the piece manager; a failed connection is marked closed,
/// if it is known, and reported.
pub open spec fn spec_manage(t: Seq<(Seq<u8>, bool, u32)>, msg: PeerConnectionManagerMessage) -> (
    Seq<(Seq<u8>, bool, u32)>,
    ManagerActionView,
) {
    match msg {
        PeerConnectionManagerMessage::CloseConnections => (t, ManagerActionView::CloseAll),
        PeerConnectionManagerMessage::DownloadPiece(id, piece) => match position_of(t, id@) {
            Some(i) => if t[i].1 {
                (
                    t.update(i, (t[i].0, t[i].1, (t[i].2 + 1) as u32)),
                    ManagerActionView::Forward(i, piece),
                )
            } else {
                (t, ManagerActionView::ReportFailedDownload(id@, piece))
            },
            None => (t, ManagerActionView::ReportFailedDownload(id@, piece)),
        },
        PeerConnectionManagerMessage::FailedConnection(id) => match position_of(t, id@) {
            Some(i) => (
                t.update(i, (t[i].0, false, t[i].2)),
                ManagerActionView::ReportFailedConnection(id@),
            ),
            None => (t, ManagerActionView::ReportFailedConnection(id@)),
        },
    }
}

/// A [`ManagerAction`], as values.
pub enum ManagerActionView {
    Forward(int, u32),
    ReportFailedDownload(Seq<u8>, u32),
    ReportFailedConnection(Seq<u8>),
    CloseAll,
}

/// A [`ManagerAction`], as values.
pub open spec fn action_view(a: ManagerAction) -> ManagerActionView {
    match a {
        ManagerAction::Forward(i, piece) => ManagerActionView::Forward(i as int, piece),
        ManagerAction::ReportFailedDownload(id, piece) => ManagerActionView::ReportFailedDownload(
            id@,
            piece,
        ),
        ManagerAction::ReportFailedConnection(id) => ManagerActionView::ReportFailedConnection(id@),
        ManagerAction::CloseAll => ManagerActionView::CloseAll,
    }
}

/// Changing what an entry holds but its peer id keeps the ids distinct.
proof fn lemma_update_keeps_ids(t: Seq<(Seq<u8>, bool, u32)>, i: int, v: (bool, u32))
    requires
        ids_distinct(t),
        0 <= i < t.len(),
    ensures
        ids_distinct(t.update(i, (t[i].0, v.0, v.1))),
{
    let u = t.update(i, (t[i].0, v.0, v.1));
    assert forall|a: int, b: int| 0 <= a < b < u.len() implies #[trigger] u[a].0 != #[trigger] u[b].0 by {
        assert(u[a].0 == t[a].0 && u[b].0 == t[b].0);
    }
}

impl<C> PeerConnections<C> {
    /// The table, as values.
    pub closed spec fn view_entries(&self) -> Seq<(Seq<u8>, bool, u32)> {
        self.entries@.map_values(|e: (Vec<u8>, ManagedConnection<C>)| entry_view(e))
    }

    /// The connections of the table, in order: the entry at a position of `view_entries`
    /// holds the connection at the same position.
    pub closed spec fn connections(&self) -> Seq<ManagedConnection<C>> {
        self.entries@.map_values(|e: (Vec<u8>, ManagedConnection<C>)| e.1)
    }

    /// Each connection is shown in the view at its position: the view holds its peer id, its
    /// open flag and its request count.
    pub proof fn lemma_view_matches(&self, i: int)
        requires
            0 <= i < self.connections().len(),
        ensures
            self.view_entries().len() == self.connections().len(),
            self.view_entries()[i].1 == self.connections()[i].is_open,
            self.view_entries()[i].2 == self.connections()[i].piece_request_count,
    {
    }

    /// The table has each peer once.
    pub closed spec fn wf(&self) -> bool {
        ids_distinct(self.view_entries())
    }

    /// An empty table.
    pub fn new() -> (r: Self)
        ensures
            r.wf(),
            r.view_entries() == Seq::<(Seq<u8>, bool, u32)>::empty(),
            r.connections() == Seq::<ManagedConnection<C>>::empty(),
    {
        let r = PeerConnections { entries: Vec::new() };
        assert(r.view_entries() =~= Seq::<(Seq<u8>, bool, u32)>::empty());
        assert(r.connections() =~= Seq::<ManagedConnection<C>>::empty());
        r
    }

    /// The number of connections.
    pub fn len(&self) -> (n: usize)
        ensures
            n == self.view_entries().len(),
    {
        self.entries.len()
    }

    /// The connection at position `i`.
    pub fn get(&self, i: usize) -> (c: &ManagedConnection<C>)
        requires
            i < self.view_entries().len(),
        ensures
            *c == self.connections()[i as int],
            c.is_open == self.view_entries()[i as int].1,
            c.piece_request_count == self.view_entries()[i as int].2,
    {
        &self.entries[i].1
    }

    /// The position of the peer `peer_id`, if it has a connection.
    pub fn find(&self, peer_id: &[u8]) -> (r: Option<usize>)
        requires
            self.wf(),
        ensures
            match r {
                Some(i) => position_of(self.view_entries(), peer_id@) == Some(i as int),
                None => position_of(self.view_entries(), peer_id@) is None,
            },
    {
        let ghost t = self.view_entries();
        let mut i: usize = 0;
        while i < self.entries.len()
            invariant
                t == self.view_entries(),
                ids_distinct(t),
                i <= t.len(),
                forall|j: int| 0 <= j < i ==> #[trigger] t[j].0 != peer_id@,
            decreases self.entries.len() - i,
        {
            assert(t[i as int].0 == self.entries@[i as int].0@);
            if equal_bytes(self.entries[i].0.as_slice(), peer_id) {
                proof {
                    let c = choose|c: int| 0 <= c < t.len() && t[c].0 == peer_id@;
                    if c != i {
                        if c < i {
                            assert(t[c].0 != peer_id@);
                        } else {
                            assert(t[i as int].0 != t[c].0);
                        }
                    }
                }
                return Some(i);
            }
            i += 1;
        }
        None
    }

    /// Adds the connection of the peer `peer_id`, in place of the one it had, if any.
    pub fn insert(&mut self, peer_id: Vec<u8>, connection: ManagedConnection<C>)
        requires
            old(self).wf(),
        ensures
            final(self).wf(),
            match position_of(old(self).view_entries(), peer_id@) {
                Some(i) => final(self).view_entries() == old(self).view_entries().update(
                    i,
                    (peer_id@, connection.is_open, connection.piece_request_count),
                ),
                None => final(self).view_entries() == old(self).view_entries().push(
                    (peer_id@, connection.is_open, connection.piece_request_count),
                ),
            },
            match position_of(old(self).view_entries(), peer_id@) {
                Some(i) => final(self).connections() == old(self).connections().update(
                    i,
                    connection,
                ),
                None => final(self).connections() == old(self).connections().push(connection),
            },
    {
        let ghost t = self.view_entries();
        let ghost e = (peer_id@, connection.is_open, connection.piece_request_count);
        let ghost cs = self.connections();
        let ghost given = connection;
        match self.find(peer_id.as_slice()) {
            Some(i) => {
                proof {
                    let c = choose|c: int| 0 <= c < t.len() && t[c].0 == peer_id@;
                    assert(t[i as int].0 == peer_id@);
                }
                self.entries.set(i, (peer_id, connection));
                assert(self.view_entries() =~= t.update(i as int, e));
                assert(self.connections() =~= cs.update(i as int, given));
                assert(ids_distinct(self.view_entries())) by {
                    assert forall|a: int, b: int| 0 <= a < b < t.len() implies #[trigger] self.view_entries()[a].0
                        != #[trigger] self.view_entries()[b].0 by {
                        assert(self.view_entries()[a].0 == t[a].0);
                        assert(self.view_entries()[b].0 == t[b].0);
                    }
                }
            },
            None => {
                self.entries.push((peer_id, connection));
                assert(self.view_entries() =~= t.push(e));
                assert(self.connections() =~= cs.push(given));
                assert(ids_distinct(self.view_entries())) by {
                    assert forall|a: int, b: int| 0 <= a < b < t.len() + 1 implies #[trigger] self.view_entries()[a].0
                        != #[trigger] self.view_entries()[b].0 by {
                        assert(self.view_entries()[a].0 == t[a].0);
                        if b == t.len() {
                            assert(!(0 <= a < t.len() && t[a].0 == peer_id@));
                        } else {
                            assert(self.view_entries()[b].0 == t[b].0);
                        }
                    }
                }
            },
        }
    }

    /// The connections, with their peer ids, in order.
    pub fn into_entries(self) -> (entries: Vec<(Vec<u8>, ManagedConnection<C>)>)
        ensures
            entries@.map_values(|e: (Vec<u8>, ManagedConnection<C>)| entry_view(e))
                == self.view_entries(),
            entries@.map_values(|e: (Vec<u8>, ManagedConnection<C>)| e.1) == self.connections(),
    {
        self.entries
    }

    /// The number of connections that are still open.
    pub fn open_connection_count(&self) -> (n: usize)
        ensures
            n == self.view_entries().filter(|e: (Seq<u8>, bool, u32)| e.1).len(),
    {
        let ghost t = self.view_entries();
        let ghost pred = |e: (Seq<u8>, bool, u32)| e.1;
        let mut n: usize = 0;
        let mut i: usize = 0;
        proof {
            reveal(Seq::filter);
            assert(t.take(0) =~= Seq::<(Seq<u8>, bool, u32)>::empty());
        }
        while i < self.entries.len()
            invariant
                t == self.view_entries(),
                pred == (|e: (Seq<u8>, bool, u32)| e.1),
                i <= t.len(),
                n == t.take(i as int).filter(pred).len(),
                n <= i,
            decreases self.entries.len() - i,
        {
            proof {
                reveal(Seq::filter);
                assert(t.take(i + 1).drop_last() =~= t.take(i as int));
            }
            if self.entries[i].1.is_open {
                n += 1;
            }
            i += 1;
        }
        assert(t.take(i as int) =~= t);
        n
    }

    /// Takes a message: updates the table and says what to do. A download request must name a
    /// peer whose connection is open with fewer than `u32::MAX` requests, or a peer whose
    /// connection is closed.
    pub fn manage(&mut self, message: PeerConnectionManagerMessage) -> (action: ManagerAction)
        requires
            old(self).wf(),
            message matches PeerConnectionManagerMessage::DownloadPiece(id, _) ==> position_of(
                old(self).view_entries(),
                id@,
            ) matches Some(i) && (old(self).view_entries()[i].1 ==> old(self).view_entries()[i].2
                < u32::MAX),
        ensures
            final(self).wf(),
            (final(self).view_entries(), action_view(action)) == spec_manage(
                old(self).view_entries(),
                message,
            ),
            final(self).connections().len() == old(self).connections().len(),
            forall|j: int|
                0 <= j < old(self).connections().len() ==> {
                    &&& (#[trigger] final(self).connections()[j]).peer == old(
                        self,
                    ).connections()[j].peer
                    &&& final(self).connections()[j].connection == old(
                        self,
                    ).connections()[j].connection
                },
    {
        let ghost t = self.view_entries();
        let ghost cs = self.connections();
        match message {
            PeerConnectionManagerMessage::CloseConnections => ManagerAction::CloseAll,
            PeerConnectionManagerMessage::DownloadPiece(peer_id, piece_index) => {
                match self.find(peer_id.as_slice()) {
                    Some(i) => {
                        assert(t[i as int] == entry_view(self.entries@[i as int]));
                        if self.entries[i].1.is_open {
                            let count = self.entries[i].1.piece_request_count;
                            self.entries[i].1.piece_request_count = count + 1;
                            assert(self.view_entries() =~= t.update(
                                i as int,
                                (t[i as int].0, t[i as int].1, (t[i as int].2 + 1) as u32),
                            ));
                            proof {
                                lemma_update_keeps_ids(t, i as int, (t[i as int].1, (t[i as int].2 + 1) as u32));
                            }
                            ManagerAction::Forward(i, piece_index)
                        } else {
                            ManagerAction::ReportFailedDownload(peer_id, piece_index)
                        }
                    },
                    None => ManagerAction::ReportFailedDownload(peer_id, piece_index),
                }
            },
            PeerConnectionManagerMessage::FailedConnection(peer_id) => {
                match self.find(peer_id.as_slice()) {
                    Some(i) => {
                        assert(t[i as int] == entry_view(self.entries@[i as int]));
                        self.entries[i].1.is_open = false;
                        assert(self.view_entries() =~= t.update(
                            i as int,
                            (t[i as int].0, false, t[i as int].2),
                        ));
                        proof {
                            lemma_update_keeps_ids(t, i as int, (false, t[i as int].2));
                        }
                    },
                    None => {},
                }
                ManagerAction::ReportFailedConnection(peer_id)
            },
        }
    }
}

} // verus!
