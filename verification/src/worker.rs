//! The download coordinator: the shared queue of pieces that the workers,
//! one for each peer, take their work from. Every operation is one step that
//! the caller runs under mutual exclusion.

use crate::error::TorrentError;
use crate::hash::{hashes_equal, sha1, sha1_digest};
use crate::torrent::{consistent, lemma_piece_geometry, piece_offset, piece_size, total_length};
use crate::torrent::{Info, InfoView};
use vstd::prelude::*;

verus! {

/// Where a piece stands.
#[derive(Debug, Clone, Copy, PartialEq, Eq, Structural)]
pub enum PieceStatus {
    /// Nobody is fetching the piece.
    Pending,
    /// The worker with this number is fetching the piece.
    InFlight(usize),
    /// The piece is here and has the expected hash.
    Verified,
    /// The download was given up before the piece was verified.
    Failed,
}

/// One piece of the content and what is known of it.
#[derive(Debug, Clone)]
pub struct PieceState {
    /// The index of the piece, counted from zero.
    pub index: usize,
    /// The hash that the piece must have.
    pub expected_hash: [u8; 20],
    /// The length that the piece must have.
    pub expected_len: usize,
    /// The bytes of the piece, once it is verified.
    pub bytes: Vec<u8>,
    /// Where the piece stands.
    pub status: PieceStatus,
}

/// The mathematical value of a `PieceState`.
pub struct PieceView {
    pub index: nat,
    pub expected_hash: Seq<u8>,
    pub expected_len: nat,
    pub bytes: Seq<u8>,
    pub status: PieceStatus,
}

impl View for PieceState {
    type V = PieceView;

    open spec fn view(&self) -> PieceView {
        PieceView {
            index: self.index as nat,
            expected_hash: self.expected_hash@,
            expected_len: self.expected_len as nat,
            bytes: self.bytes@,
            status: self.status,
        }
    }
}

impl PieceView {
    /// The bytes are the piece: they have the expected length and hash.
    pub open spec fn matches_hash(self, bytes: Seq<u8>) -> bool {
        bytes.len() == self.expected_len && sha1(bytes) == self.expected_hash
    }

    /// A piece holds bytes exactly when it is verified, and then they have
    /// the expected length and hash.
    pub open spec fn wf(self, index: int) -> bool {
        &&& self.index == index
        &&& self.status == PieceStatus::Verified ==> self.matches_hash(self.bytes)
        &&& self.status != PieceStatus::Verified ==> self.bytes.len() == 0
    }
}

/// The download coordinator: the queue of all pieces, by index.
#[derive(Debug, Clone)]
pub struct Worker {
    queue: Vec<PieceState>,
}

/// The pieces of a queue, as a sequence of views.
pub open spec fn queue_view(queue: &Vec<PieceState>) -> Seq<PieceView> {
    Seq::new(queue.len() as nat, |i: int| queue[i]@)
}

impl View for Worker {
    type V = Seq<PieceView>;

    closed spec fn view(&self) -> Seq<PieceView> {
        queue_view(&self.queue)
    }
}

/// Every piece of the queue stands at its index and is well formed.
pub open spec fn queue_wf(q: Seq<PieceView>) -> bool {
    forall|i: int| 0 <= i < q.len() ==> (#[trigger] q[i]).wf(i)
}

/// The lowest index at or after `i` whose piece is pending (the length of
/// the queue if there is none).
pub open spec fn first_pending(q: Seq<PieceView>, i: int) -> int
    decreases q.len() - i,
{
    if i < 0 || i >= q.len() {
        q.len() as int
    } else if q[i].status == PieceStatus::Pending {
        i
    } else {
        first_pending(q, i + 1)
    }
}

/// The number of pieces from index `i` on that are not verified.
pub open spec fn unverified_from(q: Seq<PieceView>, i: int) -> nat
    decreases q.len() - i,
{
    if i < 0 || i >= q.len() {
        0
    } else if q[i].status == PieceStatus::Verified {
        unverified_from(q, i + 1)
    } else {
        1 + unverified_from(q, i + 1)
    }
}

/// Every piece is verified.
pub open spec fn all_verified(q: Seq<PieceView>) -> bool {
    forall|i: int| 0 <= i < q.len() ==> (#[trigger] q[i]).status == PieceStatus::Verified
}

/// The bytes of the pieces from index `i` on, one after another.
pub open spec fn content_from(q: Seq<PieceView>, i: int) -> Seq<u8>
    decreases q.len() - i,
{
    if i < 0 || i >= q.len() {
        Seq::empty()
    } else {
        q[i].bytes + content_from(q, i + 1)
    }
}

/// The queue with the status and the bytes of the piece `index` replaced.
pub open spec fn with_piece(q: Seq<PieceView>, index: int, status: PieceStatus, bytes: Seq<u8>) -> Seq<
    PieceView,
> {
    q.update(index, PieceView { status, bytes, ..q[index] })
}

/// The queue after the worker `peer` asked for work: the lowest pending
/// piece is in flight with it, and nothing else has changed.
pub open spec fn after_claim(q: Seq<PieceView>, peer: usize) -> (Seq<PieceView>, Option<int>) {
    let i = first_pending(q, 0);
    if i < q.len() {
        (with_piece(q, i, PieceStatus::InFlight(peer), Seq::empty()), Some(i))
    } else {
        (q, None)
    }
}

/// The queue after the worker `peer` gave the piece `index` back: if the
/// piece was in flight with that worker it is pending again.
pub open spec fn after_release(q: Seq<PieceView>, index: int, peer: usize) -> Seq<PieceView> {
    if 0 <= index < q.len() && q[index].status == PieceStatus::InFlight(peer) {
        with_piece(q, index, PieceStatus::Pending, Seq::empty())
    } else {
        q
    }
}

/// The queue after the worker `peer` handed in `bytes` for the piece
/// `index`, which was in flight with it: the piece is verified if the bytes
/// have the expected length and hash, and pending again if they do not.
pub open spec fn after_submit(q: Seq<PieceView>, index: int, peer: usize, bytes: Seq<u8>) -> Seq<
    PieceView,
> {
    if 0 <= index < q.len() && q[index].status == PieceStatus::InFlight(peer) {
        if q[index].matches_hash(bytes) {
            with_piece(q, index, PieceStatus::Verified, bytes)
        } else {
            with_piece(q, index, PieceStatus::Pending, Seq::empty())
        }
    } else {
        q
    }
}

/// The queue after the download was given up: every piece that is not
/// verified has failed.
pub open spec fn after_give_up(q: Seq<PieceView>) -> Seq<PieceView> {
    Seq::new(
        q.len(),
        |i: int|
            if q[i].status == PieceStatus::Verified {
                q[i]
            } else {
                PieceView { status: PieceStatus::Failed, bytes: Seq::empty(), ..q[i] }
            },
    )
}

proof fn lemma_first_pending(q: Seq<PieceView>, i: int)
    requires
        0 <= i <= q.len(),
    ensures
        i <= first_pending(q, i) <= q.len(),
        forall|k: int| i <= k < first_pending(q, i) ==> (#[trigger] q[k]).status != PieceStatus::Pending,
        first_pending(q, i) < q.len() ==> q[first_pending(q, i)].status == PieceStatus::Pending,
    decreases q.len() - i,
{
    if i < q.len() && q[i].status != PieceStatus::Pending {
        lemma_first_pending(q, i + 1);
    }
}

impl Worker {
    /// The queue for a content: one pending piece for every piece hash, each
    /// with the length that the description gives it. `None` when the
    /// pieces do not cover the content exactly.
    pub fn new(info: &Info) -> (res: Option<Worker>)
        ensures
            match res {
                Some(worker) => {
                    &&& consistent(info@)
                    &&& queue_wf(worker@)
                    &&& worker@.len() == info@.pieces.len()
                    &&& forall|i: int|
                        0 <= i < worker@.len() ==> (#[trigger] worker@[i]) == (PieceView {
                            index: i as nat,
                            expected_hash: info@.pieces[i],
                            expected_len: piece_size(info@, i) as nat,
                            bytes: Seq::<u8>::empty(),
                            status: PieceStatus::Pending,
                        })
                },
                None => !consistent(info@) || total_length(info@.layout) > usize::MAX,
            },
    {
        if !info.is_consistent() {
            return None;
        }
        let count = info.pieces.len();
        let mut queue: Vec<PieceState> = Vec::new();
        let mut i: usize = 0;
        while i < count
            invariant
                i <= count,
                count == info@.pieces.len(),
                consistent(info@),
                total_length(info@.layout) <= usize::MAX,
                queue@.len() == i,
                forall|k: int|
                    0 <= k < i ==> (#[trigger] queue@[k])@ == (PieceView {
                        index: k as nat,
                        expected_hash: info@.pieces[k],
                        expected_len: piece_size(info@, k) as nat,
                        bytes: Seq::<u8>::empty(),
                        status: PieceStatus::Pending,
                    }),
            decreases count - i,
        {
            proof {
                lemma_piece_geometry(info@, i as int);
            }
            let expected_len = match info.piece_size(i) {
                Some(size) => size,
                None => {
                    return None;
                },
            };
            queue.push(
                PieceState {
                    index: i,
                    expected_hash: info.pieces.0[i],
                    expected_len,
                    bytes: Vec::new(),
                    status: PieceStatus::Pending,
                },
            );
            i += 1;
        }
        let worker = Worker { queue };
        assert(worker@.len() == count);
        assert forall|k: int| 0 <= k < worker@.len() implies (#[trigger] worker@[k]).wf(k) by {
            assert(worker@[k] == worker.queue@[k]@);
        }
        Some(worker)
    }

    /// The number of pieces.
    pub fn len(&self) -> (n: usize)
        ensures
            n == self@.len(),
    {
        self.queue.len()
    }

    /// Where the piece `index` stands; `None` when there is no such piece.
    pub fn status(&self, index: usize) -> (res: Option<PieceStatus>)
        ensures
            res == if index < self@.len() {
                Some(self@[index as int].status)
            } else {
                None
            },
    {
        if index < self.queue.len() {
            Some(self.queue[index].status)
        } else {
            None
        }
    }

    /// The length that the piece `index` must have.
    pub fn expected_len(&self, index: usize) -> (res: Option<usize>)
        ensures
            res == if index < self@.len() {
                Some(self@[index as int].expected_len as usize)
            } else {
                None
            },
    {
        if index < self.queue.len() {
            Some(self.queue[index].expected_len)
        } else {
            None
        }
    }

    /// The hash that the piece `index` must have.
    pub fn expected_hash(&self, index: usize) -> (res: Option<[u8; 20]>)
        ensures
            match res {
                Some(hash) => index < self@.len() && hash@ == self@[index as int].expected_hash,
                None => index >= self@.len(),
            },
    {
        if index < self.queue.len() {
            Some(self.queue[index].expected_hash)
        } else {
            None
        }
    }

    /// Hands the lowest pending piece to the worker `peer` and marks it as
    /// in flight with that worker. `None` when no piece is pending; the
    /// worker then ends.
    pub fn claim(&mut self, peer: usize) -> (res: Option<usize>)
        ensures
            (final(self)@, match res {
                Some(i) => Some(i as int),
                None => None,
            }) == after_claim(old(self)@, peer),
            queue_wf(old(self)@) ==> queue_wf(final(self)@),
    {
        let ghost q = self@;
        let mut i: usize = 0;
        while i < self.queue.len()
            invariant
                i <= self.queue.len(),
                self@ == q,
                q == old(self)@,
                first_pending(q, i as int) == first_pending(q, 0),
            decreases self.queue.len() - i,
        {
            assert(q[i as int] == self.queue@[i as int]@);
            match self.queue[i].status {
                PieceStatus::Pending => {
                    self.set_piece(i, PieceStatus::InFlight(peer), Vec::new());
                    return Some(i);
                },
                _ => {},
            }
            i += 1;
        }
        None
    }

    fn set_piece(&mut self, index: usize, status: PieceStatus, bytes: Vec<u8>)
        requires
            index < old(self)@.len(),
        ensures
            final(self)@ == with_piece(old(self)@, index as int, status, bytes@),
            queue_wf(old(self)@) && (status == PieceStatus::Verified ==> old(
                self,
            )@[index as int].matches_hash(bytes@)) && (status != PieceStatus::Verified
                ==> bytes@.len() == 0) ==> queue_wf(final(self)@),
    {
        let ghost q = self@;
        let ghost before = self.queue@;
        let kept = &self.queue[index];
        let piece = PieceState {
            index: kept.index,
            expected_hash: kept.expected_hash,
            expected_len: kept.expected_len,
            bytes,
            status,
        };
        assert(q[index as int] == before[index as int]@);
        self.queue.set(index, piece);
        assert(self@ =~= with_piece(q, index as int, status, bytes@)) by {
            assert forall|k: int| 0 <= k < self@.len() implies self@[k] == with_piece(
                q,
                index as int,
                status,
                bytes@,
            )[k] by {
                if k != index {
                    assert(self.queue@[k] == before[k]);
                    assert(q[k] == before[k]@);
                }
            }
        }
        proof {
            if queue_wf(q) && (status == PieceStatus::Verified ==> q[index as int].matches_hash(
                bytes@,
            )) && (status != PieceStatus::Verified ==> bytes@.len() == 0) {
                assert forall|k: int| 0 <= k < self@.len() implies (#[trigger] self@[k]).wf(k) by {
                    assert(q[k].wf(k));
                }
            }
        }
    }

    /// Gives the piece `index` back: if it was in flight with the worker
    /// `peer` it is pending again, for any worker to take. A worker calls
    /// this for its piece when its connection fails.
    pub fn release(&mut self, index: usize, peer: usize)
        ensures
            final(self)@ == after_release(old(self)@, index as int, peer),
            queue_wf(old(self)@) ==> queue_wf(final(self)@),
    {
        if index < self.queue.len() {
            assert(self@[index as int] == self.queue@[index as int]@);
            match self.queue[index].status {
                PieceStatus::InFlight(holder) => {
                    if holder == peer {
                        self.set_piece(index, PieceStatus::Pending, Vec::new());
                    }
                },
                _ => {},
            }
        }
    }

    /// Tells whether the piece `index` is in flight with the worker `peer`.
    pub fn holds(&self, index: usize, peer: usize) -> (yes: bool)
        ensures
            yes == (index < self@.len() && self@[index as int].status == PieceStatus::InFlight(
                peer,
            )),
    {
        if index >= self.queue.len() {
            return false;
        }
        assert(self@[index as int] == self.queue@[index as int]@);
        match self.queue[index].status {
            PieceStatus::InFlight(holder) => holder == peer,
            _ => false,
        }
    }

    /// Tells whether bytes of this length and with this SHA-1 digest are the
    /// piece `index`, handed in by the worker that holds it: whether the
    /// piece is in flight with `peer`, the length is the expected length,
    /// and the digest is the expected hash.
    pub fn accepts(&self, index: usize, peer: usize, len: usize, digest: &[u8; 20]) -> (yes: bool)
        ensures
            yes == (index < self@.len() && self@[index as int].status == PieceStatus::InFlight(peer)
                && len == self@[index as int].expected_len && digest@
                == self@[index as int].expected_hash),
    {
        if !self.holds(index, peer) {
            return false;
        }
        assert(self@[index as int] == self.queue@[index as int]@);
        len == self.queue[index].expected_len && hashes_equal(
            digest,
            &self.queue[index].expected_hash,
        )
    }

    /// Takes the bytes that the worker `peer` fetched for the piece `index`.
    /// The piece is marked verified if and only if the bytes have the
    /// expected length and SHA-1 of them is the expected hash. Bytes that
    /// do not are dropped, the piece is pending again, and the failure is
    /// `PieceCorrupt`. Bytes for a piece that is not in flight with that
    /// worker change nothing.
    pub fn submit(&mut self, index: usize, peer: usize, bytes: Vec<u8>) -> (res: Result<
        (),
        TorrentError,
    >)
        ensures
            final(self)@ == after_submit(old(self)@, index as int, peer, bytes@),
            queue_wf(old(self)@) ==> queue_wf(final(self)@),
            match res {
                Ok(()) => {
                    &&& index < old(self)@.len()
                    &&& old(self)@[index as int].status == PieceStatus::InFlight(peer)
                    &&& old(self)@[index as int].matches_hash(bytes@)
                    &&& final(self)@[index as int].status == PieceStatus::Verified
                },
                Err(error) => {
                    &&& error == TorrentError::PieceCorrupt(index)
                    &&& !(index < old(self)@.len() && old(self)@[index as int].status
                        == PieceStatus::InFlight(peer) && old(self)@[index as int].matches_hash(
                        bytes@,
                    ))
                },
            },
    {
        if !self.holds(index, peer) {
            return Err(TorrentError::PieceCorrupt(index));
        }
        let digest = sha1_digest(bytes.as_slice());
        if self.accepts(index, peer, bytes.len(), &digest) {
            self.set_piece(index, PieceStatus::Verified, bytes);
            Ok(())
        } else {
            self.set_piece(index, PieceStatus::Pending, Vec::new());
            Err(TorrentError::PieceCorrupt(index))
        }
    }

    /// The number of pieces that are not verified.
    pub fn unverified(&self) -> (n: usize)
        ensures
            n == unverified_from(self@, 0),
            n == 0 <==> all_verified(self@),
    {
        let ghost q = self@;
        let mut n: usize = 0;
        let mut i: usize = 0;
        while i < self.queue.len()
            invariant
                i <= self.queue.len(),
                self@ == q,
                n <= i,
                n + unverified_from(q, i as int) == unverified_from(q, 0),
                n == 0 <==> forall|k: int|
                    0 <= k < i ==> (#[trigger] q[k]).status == PieceStatus::Verified,
            decreases self.queue.len() - i,
        {
            assert(q[i as int] == self.queue@[i as int]@);
            match self.queue[i].status {
                PieceStatus::Verified => {},
                _ => {
                    n += 1;
                },
            }
            i += 1;
        }
        n
    }

    /// Gives the download up: every piece that is not verified is marked as
    /// failed, and no piece is pending or in flight any more.
    pub fn give_up(&mut self)
        ensures
            final(self)@ == after_give_up(old(self)@),
            queue_wf(old(self)@) ==> queue_wf(final(self)@),
    {
        let ghost q = self@;
        let mut i: usize = 0;
        while i < self.queue.len()
            invariant
                i <= self.queue.len(),
                q == old(self)@,
                self@.len() == q.len(),
                self.queue@.len() == q.len(),
                forall|k: int| 0 <= k < i ==> (#[trigger] self@[k]) == after_give_up(q)[k],
                forall|k: int| i <= k < q.len() ==> (#[trigger] self@[k]) == q[k],
                queue_wf(q) ==> queue_wf(self@),
            decreases self.queue.len() - i,
        {
            assert(self@[i as int] == self.queue@[i as int]@);
            let ghost before = self@;
            match self.queue[i].status {
                PieceStatus::Verified => {},
                _ => {
                    self.set_piece(i, PieceStatus::Failed, Vec::new());
                },
            }
            assert(self.queue@.len() == self@.len());
            assert(self@[i as int] == after_give_up(q)[i as int]);
            assert forall|k: int| 0 <= k < i implies (#[trigger] self@[k]) == after_give_up(q)[k] by {
                assert(self@[k] == before[k]);
            }
            assert forall|k: int| i < k < q.len() implies (#[trigger] self@[k]) == q[k] by {
                assert(self@[k] == before[k]);
            }
            i += 1;
        }
        assert(self@ =~= after_give_up(q));
    }

    /// Tells whether every piece is verified.
    pub fn is_complete(&self) -> (yes: bool)
        ensures
            yes == all_verified(self@),
    {
        self.unverified() == 0
    }

    /// The content: the bytes of all pieces in the order of their indices.
    /// While a piece is not verified there is no content, and the failure is
    /// `DownloadIncomplete` with the number of pieces that are missing.
    pub fn assemble(&self) -> (res: Result<Vec<u8>, TorrentError>)
        ensures
            match res {
                Ok(content) => all_verified(self@) && content@ == content_from(self@, 0),
                Err(error) => !all_verified(self@) && error == TorrentError::DownloadIncomplete(
                    unverified_from(self@, 0) as usize,
                ),
            },
    {
        let missing = self.unverified();
        if missing != 0 {
            return Err(TorrentError::DownloadIncomplete(missing));
        }
        let ghost q = self@;
        let mut content: Vec<u8> = Vec::new();
        let mut i: usize = 0;
        while i < self.queue.len()
            invariant
                i <= self.queue.len(),
                self@ == q,
                content@ + content_from(q, i as int) == content_from(q, 0),
            decreases self.queue.len() - i,
        {
            let ghost before = content@;
            assert(q[i as int] == self.queue@[i as int]@);
            content.extend_from_slice(self.queue[i].bytes.as_slice());
            assert(content@ + content_from(q, i + 1) =~= before + content_from(q, i as int));
            i += 1;
        }
        assert(content@ + Seq::<u8>::empty() =~= content@);
        Ok(content)
    }
}

// ---------------------------------------------------------------------------
// What holds of the queue
// ---------------------------------------------------------------------------

/// A piece is claimed by one worker at a time: a piece that was handed to a
/// worker is in flight with that worker alone, and the next claim, by
/// whichever worker, gets another piece and leaves the first one as it is.
pub proof fn lemma_claim_exclusive(q: Seq<PieceView>, first: usize, second: usize)
    requires
        after_claim(q, first).1 is Some,
    ensures
        ({
            let i = after_claim(q, first).1.unwrap();
            let q1 = after_claim(q, first).0;
            let q2 = after_claim(q1, second).0;
            &&& 0 <= i < q.len()
            &&& q[i].status == PieceStatus::Pending
            &&& q1[i].status == PieceStatus::InFlight(first)
            &&& after_claim(q1, second).1 != Some(i)
            &&& q2[i].status == PieceStatus::InFlight(first)
            &&& forall|k: int| 0 <= k < q.len() && k != i ==> q1[k] == q[k]
        }),
{
    let i = after_claim(q, first).1.unwrap();
    let q1 = after_claim(q, first).0;
    lemma_first_pending(q, 0);
    lemma_first_pending(q1, 0);
}

/// A piece becomes verified through bytes with the expected hash, and in no
/// other way: after bytes were handed in, the piece is verified if and only
/// if it was verified before, or it was in flight with the worker that
/// handed them in and they have the expected length and SHA-1 hash.
pub proof fn lemma_verified_iff_hash(q: Seq<PieceView>, index: int, peer: usize, bytes: Seq<u8>)
    requires
        0 <= index < q.len(),
    ensures
        after_submit(q, index, peer, bytes)[index].status == PieceStatus::Verified <==> (
        q[index].status == PieceStatus::Verified || (q[index].status == PieceStatus::InFlight(peer)
            && q[index].matches_hash(bytes))),
        forall|k: int| 0 <= k < q.len() && k != index ==> after_submit(q, index, peer, bytes)[k] == q[k],
{
}

/// A verified piece stays verified, with its bytes, whatever workers claim,
/// give back or hand in afterwards.
pub proof fn lemma_verified_stays(q: Seq<PieceView>, k: int, index: int, peer: usize, bytes: Seq<u8>)
    requires
        0 <= k < q.len(),
        q[k].status == PieceStatus::Verified,
    ensures
        after_claim(q, peer).0[k] == q[k],
        after_release(q, index, peer)[k] == q[k],
        after_submit(q, index, peer, bytes)[k] == q[k],
        after_give_up(q)[k] == q[k],
{
    lemma_first_pending(q, 0);
}

/// When every piece is verified, the verified pieces are exactly the
/// indices from zero to the number of pieces, each once, and each piece
/// holds bytes of the expected length and hash.
pub proof fn lemma_complete_covers(q: Seq<PieceView>, i: int)
    requires
        queue_wf(q),
        all_verified(q),
        0 <= i < q.len(),
    ensures
        q[i].index == i,
        q[i].status == PieceStatus::Verified,
        q[i].bytes.len() == q[i].expected_len,
        sha1(q[i].bytes) == q[i].expected_hash,
{
    assert(q[i].wf(i));
}

proof fn lemma_content_length_from(info: InfoView, q: Seq<PieceView>, i: int)
    requires
        consistent(info),
        q.len() == info.pieces.len(),
        forall|k: int| 0 <= k < q.len() ==> (#[trigger] q[k]).expected_len == piece_size(info, k),
        queue_wf(q),
        all_verified(q),
        0 <= i < q.len(),
    ensures
        content_from(q, i).len() == total_length(info.layout) - piece_offset(info, i),
    decreases q.len() - i,
{
    lemma_piece_geometry(info, i);
    assert(q[i].wf(i));
    assert(q[i].status == PieceStatus::Verified);
    assert(q[i].expected_len == piece_size(info, i));
    assert(content_from(q, i) == q[i].bytes + content_from(q, i + 1));
    if i + 1 < q.len() {
        lemma_content_length_from(info, q, i + 1);
    } else {
        assert(content_from(q, i + 1) =~= Seq::<u8>::empty());
    }
}

/// The assembled content has the length of the whole content: the pieces
/// leave no gap and do not overlap.
pub proof fn lemma_content_length(info: InfoView, q: Seq<PieceView>)
    requires
        consistent(info),
        q.len() == info.pieces.len(),
        forall|k: int| 0 <= k < q.len() ==> (#[trigger] q[k]).expected_len == piece_size(info, k),
        queue_wf(q),
        all_verified(q),
    ensures
        content_from(q, 0).len() == total_length(info.layout),
{
    let p = info.plength as int;
    if q.len() > 0 {
        lemma_content_length_from(info, q, 0);
        assert(p * 0 == 0) by (nonlinear_arith);
    } else {
        assert((0 - 1) * p < 0 && 0 * p == 0) by (nonlinear_arith)
            requires
                p > 0,
        ;
    }
}

/// One step on the queue, by whichever worker.
pub enum QueueStep {
    /// The worker with this number asks for work.
    Claim(usize),
    /// The worker gives the piece back: index, then worker.
    Release(usize, usize),
    /// The worker hands in bytes for the piece: index, worker, bytes.
    Submit(usize, usize, Seq<u8>),
    /// The download is given up.
    GiveUp,
}

/// The queue after one step.
pub open spec fn after_step(q: Seq<PieceView>, step: QueueStep) -> Seq<PieceView> {
    match step {
        QueueStep::Claim(peer) => after_claim(q, peer).0,
        QueueStep::Release(index, peer) => after_release(q, index as int, peer),
        QueueStep::Submit(index, peer, bytes) => after_submit(q, index as int, peer, bytes),
        QueueStep::GiveUp => after_give_up(q),
    }
}

/// The queue after a run of steps, one after another.
pub open spec fn after_steps(q: Seq<PieceView>, steps: Seq<QueueStep>) -> Seq<PieceView>
    decreases steps.len(),
{
    if steps.len() == 0 {
        q
    } else {
        after_step(after_steps(q, steps.drop_last()), steps.last())
    }
}

/// What no step changes: the number of pieces, what each piece must be, and
/// a piece that is verified.
pub open spec fn carries_on(before: Seq<PieceView>, after: Seq<PieceView>) -> bool {
    &&& after.len() == before.len()
    &&& forall|i: int|
        0 <= i < before.len() ==> {
            &&& (#[trigger] after[i]).index == before[i].index
            &&& after[i].expected_hash == before[i].expected_hash
            &&& after[i].expected_len == before[i].expected_len
            &&& (before[i].status == PieceStatus::Verified ==> after[i] == before[i])
        }
}

proof fn lemma_step_carries_on(q: Seq<PieceView>, step: QueueStep)
    requires
        queue_wf(q),
    ensures
        queue_wf(after_step(q, step)),
        carries_on(q, after_step(q, step)),
{
    let r = after_step(q, step);
    lemma_first_pending(q, 0);
    assert forall|i: int| 0 <= i < r.len() implies (#[trigger] r[i]).wf(i) by {
        assert(q[i].wf(i));
    }
    assert forall|i: int| 0 <= i < q.len() implies {
        &&& (#[trigger] r[i]).index == q[i].index
        &&& r[i].expected_hash == q[i].expected_hash
        &&& r[i].expected_len == q[i].expected_len
        &&& (q[i].status == PieceStatus::Verified ==> r[i] == q[i])
    } by {
        assert(q[i].wf(i));
    }
}

/// Whatever the workers do, in whatever order their steps come: every piece
/// keeps its place, its expected hash and its expected length; a piece is
/// verified only while it holds bytes of the expected length whose SHA-1 is
/// the expected hash; and a piece that is verified stays verified with the
/// same bytes.
pub proof fn lemma_steps_carry_on(q: Seq<PieceView>, steps: Seq<QueueStep>)
    requires
        queue_wf(q),
    ensures
        queue_wf(after_steps(q, steps)),
        carries_on(q, after_steps(q, steps)),
    decreases steps.len(),
{
    if steps.len() > 0 {
        let mid = after_steps(q, steps.drop_last());
        lemma_steps_carry_on(q, steps.drop_last());
        lemma_step_carries_on(mid, steps.last());
        let end = after_steps(q, steps);
        assert forall|i: int| 0 <= i < q.len() implies {
            &&& (#[trigger] end[i]).index == q[i].index
            &&& end[i].expected_hash == q[i].expected_hash
            &&& end[i].expected_len == q[i].expected_len
            &&& (q[i].status == PieceStatus::Verified ==> end[i] == q[i])
        } by {
            assert(mid[i].index == q[i].index);
        }
    }
}

} // verus!
