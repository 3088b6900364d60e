use vstd::prelude::*;
use std::collections::HashMap;
use std::collections::HashSet;

verus! {

/// The client's request to open a connection.
#[derive(Debug)]
pub struct Syn;

/// The server's answer to `Syn`.
#[derive(Debug)]
pub struct SynAck;

/// An acknowledgement: the client's, which completes the opening, or
/// either side's while closing.
#[derive(Debug)]
pub struct Ack;

/// The server's notice that it closes the connection.
#[derive(Debug)]
pub struct Fin;

/// Where the server stands in the session: waiting for `Syn`, waiting for
/// the `Ack` that completes the opening, taking in data, waiting for the
/// client's last `Ack`.
#[derive(Debug, Clone, Copy, PartialEq, Eq, Structural)]
pub enum ServerPhase {
    AwaitSyn,
    AwaitAck,
    Transfer,
    AwaitFinalAck,
}

/// Where the client stands in the session: not yet opened, waiting for
/// `SynAck`, sending data, waiting for the server's `Ack` and `Fin`, closed.
#[derive(Debug, Clone, Copy, PartialEq, Eq, Structural)]
pub enum ClientPhase {
    Start,
    AwaitSynAck,
    Transfer,
    AwaitClose,
    Closed,
}

/// A buffer carried by one packet, and the sequence number that places it.
#[derive(Debug)]
pub struct Packet {
    pub buf: Vec<u8>,
    pub seqno: usize,
}

/// The contents of the buffers of `ps`, in order.
pub open spec fn packet_bufs(ps: Seq<Packet>) -> Seq<Seq<u8>> {
    Seq::new(ps.len(), |i: int| ps[i].buf@)
}

/// The sequence numbers of `ps`, in order.
pub open spec fn seqnos(ps: Seq<Packet>) -> Seq<usize> {
    Seq::new(ps.len(), |i: int| ps[i].seqno)
}

/// `m` with each packet of `ps`, in order, recorded under its sequence
/// number (a later packet replacing an earlier one with the same number).
pub open spec fn tag_all(m: Map<usize, Seq<u8>>, ps: Seq<Packet>) -> Map<usize, Seq<u8>>
    decreases ps.len(),
{
    if ps.len() == 0 {
        m
    } else {
        tag_all(m, ps.drop_last()).insert(ps.last().seqno, ps.last().buf@)
    }
}

/// `received` with each position that `tags` records replaced by the
/// recorded buffer.
pub open spec fn settle(received: Seq<Seq<u8>>, tags: Map<usize, Seq<u8>>) -> Seq<Seq<u8>> {
    Seq::new(
        received.len(),
        |i: int| if tags.contains_key(i as usize) { tags[i as usize] } else { received[i] },
    )
}

/// The contents of a sequence of buffers.
pub open spec fn contents(bufs: Seq<Vec<u8>>) -> Seq<Seq<u8>> {
    Seq::new(bufs.len(), |i: int| bufs[i]@)
}

fn copy_buffer(b: &Vec<u8>) -> (r: Vec<u8>)
    ensures
        r@ == b@,
{
    let r = b.clone();
    assert(r@ =~= b@);
    r
}

/// The receiving side of the transfer: it keeps every buffer that arrives,
/// in arrival order, and records each under its sequence number.
pub struct TcpServer {
    results: Vec<Vec<u8>>,
    tags: HashMap<usize, Vec<u8>>,
    phase: ServerPhase,
}

impl TcpServer {
    /// The buffers received so far, in arrival order.
    pub closed spec fn received(&self) -> Seq<Seq<u8>> {
        contents(self.results@)
    }

    /// The last buffer received under each sequence number.
    pub closed spec fn tagged(&self) -> Map<usize, Seq<u8>> {
        self.tags@.map_values(|b: Vec<u8>| b@)
    }

    /// Where the server stands in the session.
    pub closed spec fn phase(&self) -> ServerPhase {
        self.phase
    }

    /// A server that has received nothing and waits for `Syn`.
    pub fn new() -> (s: TcpServer)
        ensures
            s.received() == Seq::<Seq<u8>>::empty(),
            s.tagged() == Map::<usize, Seq<u8>>::empty(),
            s.phase() == ServerPhase::AwaitSyn,
    {
        let s = TcpServer { results: Vec::new(), tags: HashMap::new(), phase: ServerPhase::AwaitSyn };
        assert(s.received() =~= Seq::<Seq<u8>>::empty());
        assert(s.tagged() =~= Map::<usize, Seq<u8>>::empty());
        s
    }

    /// Answers the client's `Syn` with `SynAck`; the server then waits for
    /// the client's `Ack`.
    pub fn accept(&mut self, _syn: Syn) -> (reply: SynAck)
        requires
            old(self).phase() == ServerPhase::AwaitSyn,
        ensures
            final(self).phase() == ServerPhase::AwaitAck,
            final(self).received() == old(self).received(),
            final(self).tagged() == old(self).tagged(),
    {
        self.phase = ServerPhase::AwaitAck;
        SynAck
    }

    /// Takes the client's `Ack` that completes the opening; data may flow.
    pub fn confirm(&mut self, _ack: Ack)
        requires
            old(self).phase() == ServerPhase::AwaitAck,
        ensures
            final(self).phase() == ServerPhase::Transfer,
            final(self).received() == old(self).received(),
            final(self).tagged() == old(self).tagged(),
    {
        self.phase = ServerPhase::Transfer;
    }

    /// Takes in one batch of packets and returns the acknowledgement: the
    /// sequence numbers of the batch, in order.
    pub fn receive(&mut self, packets: &Vec<Packet>) -> (acks: Vec<usize>)
        requires
            old(self).phase() == ServerPhase::Transfer,
        ensures
            final(self).phase() == ServerPhase::Transfer,
            final(self).received() == old(self).received() + packet_bufs(packets@),
            final(self).tagged() == tag_all(old(self).tagged(), packets@),
            acks@ == seqnos(packets@),
    {
        let ghost r0 = self.received();
        let ghost t0 = self.tagged();
        let mut acks: Vec<usize> = Vec::new();
        let mut k: usize = 0;
        while k < packets.len()
            invariant
                k <= packets.len(),
                self.received() == r0 + packet_bufs(packets@.take(k as int)),
                self.tagged() == tag_all(t0, packets@.take(k as int)),
                acks@ == seqnos(packets@.take(k as int)),
                self.phase == old(self).phase,
            decreases packets.len() - k,
        {
            let p = &packets[k];
            let b1 = copy_buffer(&p.buf);
            let b2 = copy_buffer(&p.buf);
            let ghost old_results = self.results@;
            let ghost nb = b1@;
            let ghost old_tags = self.tags@;
            self.results.push(b1);
            self.tags.insert(p.seqno, b2);
            acks.push(p.seqno);
            proof {
                let pre = packets@.take(k as int);
                let post = packets@.take(k + 1);
                assert(post.drop_last() =~= pre);
                assert(post.last() == packets@[k as int]);
                assert(packet_bufs(post) =~= packet_bufs(pre).push(nb));
                assert(contents(self.results@) =~= contents(old_results).push(nb));
                assert(self.received() =~= r0 + packet_bufs(post));
                assert(self.tagged() =~= tag_all(t0, post));
                assert(acks@ =~= seqnos(post));
            }
            k = k + 1;
        }
        assert(packets@.take(packets.len() as int) =~= packets@);
        acks
    }

    /// Answers the client's choice to close with `Ack` and `Fin`; the
    /// server then waits for the client's last `Ack`.
    pub fn close(&mut self) -> (reply: (Ack, Fin))
        requires
            old(self).phase() == ServerPhase::Transfer,
        ensures
            final(self).phase() == ServerPhase::AwaitFinalAck,
            final(self).received() == old(self).received(),
            final(self).tagged() == old(self).tagged(),
    {
        self.phase = ServerPhase::AwaitFinalAck;
        (Ack, Fin)
    }

    /// Takes the client's last `Ack` and ends the transfer: the received
    /// buffers, with each position that a sequence number names replaced by
    /// the last buffer received under it.
    pub fn finish(self, _ack: Ack) -> (results: Vec<Vec<u8>>)
        requires
            self.phase() == ServerPhase::AwaitFinalAck,
            forall|k: usize| #[trigger] self.tagged().contains_key(k) ==> k < self.received().len(),
        ensures
            contents(results@) == settle(self.received(), self.tagged()),
    {
        let TcpServer { mut results, tags, phase: _ } = self;
        let ghost r0 = contents(results@);
        let ghost t0 = tags@.map_values(|b: Vec<u8>| b@);
        let n = results.len();
        let mut i: usize = 0;
        while i < n
            invariant
                i <= n,
                n == results.len(),
                r0.len() == n,
                t0 == tags@.map_values(|b: Vec<u8>| b@),
                forall|j: int| 0 <= j < i ==> (#[trigger] results@[j])@ == settle(r0, t0)[j],
                forall|j: int| i <= j < n ==> (#[trigger] results@[j])@ == r0[j],
            decreases n - i,
        {
            match tags.get(&i) {
                Some(b) => {
                    let c = copy_buffer(b);
                    results.set(i, c);
                },
                None => {},
            }
            i = i + 1;
        }
        assert(contents(results@) =~= settle(r0, t0));
        results
    }
}

/// The positions `0..n` as a set.
pub open spec fn positions(n: nat) -> Set<usize> {
    Set::new(|k: usize| k < n)
}

/// Whether `ps` holds, in increasing order of position, one packet for each
/// position of `pending`, carrying the buffer of `bufs` at that position.
pub open spec fn sends_pending(ps: Seq<Packet>, bufs: Seq<Seq<u8>>, pending: Set<usize>) -> bool {
    &&& forall|i: int| 0 <= i < ps.len() ==> pending.contains(#[trigger] ps[i].seqno)
    &&& forall|i: int| 0 <= i < ps.len() ==> (#[trigger] ps[i]).seqno < bufs.len() && ps[i].buf@ == bufs[ps[i].seqno as int]
    &&& forall|i: int, j: int| 0 <= i < j < ps.len() ==> (#[trigger] ps[i]).seqno < (#[trigger] ps[j]).seqno
    &&& forall|k: usize| #[trigger] pending.contains(k) ==> exists|i: int| 0 <= i < ps.len() && (#[trigger] ps[i]).seqno == k
}

/// The sending side of the transfer: its buffers and the positions whose
/// delivery has not been acknowledged yet.
pub struct TcpClient {
    bufs: Vec<Vec<u8>>,
    remains: HashSet<usize>,
    phase: ClientPhase,
}

impl TcpClient {
    /// Every pending position names one of the buffers.
    #[verifier::type_invariant]
    spec fn pending_in_range(self) -> bool {
        self.remains@.subset_of(positions(self.bufs.len() as nat))
    }

    /// The buffers to transfer.
    pub closed spec fn buffers(&self) -> Seq<Seq<u8>> {
        contents(self.bufs@)
    }

    /// The positions not yet acknowledged.
    pub closed spec fn pending(&self) -> Set<usize> {
        self.remains@
    }

    /// Where the client stands in the session.
    pub closed spec fn phase(&self) -> ClientPhase {
        self.phase
    }

    /// A client about to transfer `bufs`, with every position pending.
    pub fn new(bufs: Vec<Vec<u8>>) -> (c: TcpClient)
        ensures
            c.buffers() == contents(bufs@),
            c.pending() == positions(bufs.len() as nat),
            c.phase() == ClientPhase::Start,
    {
        let mut remains: HashSet<usize> = HashSet::new();
        let n = bufs.len();
        let mut i: usize = 0;
        while i < n
            invariant
                i <= n,
                remains@ == positions(i as nat),
            decreases n - i,
        {
            remains.insert(i);
            i = i + 1;
            assert(remains@ =~= positions(i as nat));
        }
        TcpClient { bufs, remains, phase: ClientPhase::Start }
    }

    /// Opens the connection with `Syn`; the client then waits for `SynAck`.
    pub fn open(&mut self) -> (syn: Syn)
        requires
            old(self).phase() == ClientPhase::Start,
        ensures
            final(self).phase() == ClientPhase::AwaitSynAck,
            final(self).buffers() == old(self).buffers(),
            final(self).pending() == old(self).pending(),
    {
        proof {
            use_type_invariant(&*self);
        }
        self.phase = ClientPhase::AwaitSynAck;
        Syn
    }

    /// Takes the server's `SynAck` and completes the opening with `Ack`;
    /// data may flow.
    pub fn on_syn_ack(&mut self, _syn_ack: SynAck) -> (ack: Ack)
        requires
            old(self).phase() == ClientPhase::AwaitSynAck,
        ensures
            final(self).phase() == ClientPhase::Transfer,
            final(self).buffers() == old(self).buffers(),
            final(self).pending() == old(self).pending(),
    {
        proof {
            use_type_invariant(&*self);
        }
        self.phase = ClientPhase::Transfer;
        Ack
    }

    /// Takes the server's `Ack` and `Fin` and answers with the last `Ack`;
    /// the session is closed.
    pub fn on_close(&mut self, _ack: Ack, _fin: Fin) -> (ack: Ack)
        requires
            old(self).phase() == ClientPhase::AwaitClose,
        ensures
            final(self).phase() == ClientPhase::Closed,
            final(self).buffers() == old(self).buffers(),
            final(self).pending() == old(self).pending(),
    {
        proof {
            use_type_invariant(&*self);
        }
        self.phase = ClientPhase::Closed;
        Ack
    }

    /// The packets of one round: one for each pending position, in order of
    /// position, each carrying the buffer at that position.
    pub fn packets(&self) -> (ps: Vec<Packet>)
        requires
            self.phase() == ClientPhase::Transfer,
        ensures
            sends_pending(ps@, self.buffers(), self.pending()),
    {
        proof {
            use_type_invariant(self);
        }
        let n = self.bufs.len();
        let mut ps: Vec<Packet> = Vec::new();
        let mut pos: usize = 0;
        while pos < n
            invariant
                pos <= n,
                n == self.bufs.len(),
                self.remains@.subset_of(positions(n as nat)),
                forall|i: int| 0 <= i < ps.len() ==> self.remains@.contains(#[trigger] ps@[i].seqno),
                forall|i: int|
                    0 <= i < ps.len() ==> (#[trigger] ps@[i]).seqno < pos && ps@[i].buf@ == self.buffers()[ps@[i].seqno as int],
                forall|i: int, j: int| 0 <= i < j < ps.len() ==> (#[trigger] ps@[i]).seqno < (#[trigger] ps@[j]).seqno,
                forall|k: usize|
                    #[trigger] self.remains@.contains(k) && k < pos ==> exists|i: int|
                        0 <= i < ps.len() && (#[trigger] ps@[i]).seqno == k,
            decreases n - pos,
        {
            if self.remains.contains(&pos) {
                let buf = copy_buffer(&self.bufs[pos]);
                let ghost old_ps = ps@;
                ps.push(Packet { buf, seqno: pos });
                proof {
                    assert forall|k: usize|
                        #[trigger] self.remains@.contains(k) && k < pos + 1 implies exists|i: int|
                        0 <= i < ps.len() && (#[trigger] ps@[i]).seqno == k by {
                        if k < pos {
                            let i = choose|i: int| 0 <= i < old_ps.len() && (#[trigger] old_ps[i]).seqno == k;
                            assert(ps@[i] == old_ps[i]);
                        } else {
                            assert(ps@[ps.len() - 1].seqno == k);
                        }
                    }
                }
            }
            pos = pos + 1;
        }
        ps
    }

    /// Takes in an acknowledgement: the positions in `got` are no longer
    /// pending. Tells whether none is left, in which case the client chooses
    /// to close and waits for the server's `Ack` and `Fin`.
    pub fn acknowledge(&mut self, got: &Vec<usize>) -> (done: bool)
        requires
            old(self).phase() == ClientPhase::Transfer,
        ensures
            final(self).phase() == (if done { ClientPhase::AwaitClose } else { ClientPhase::Transfer }),
            final(self).buffers() == old(self).buffers(),
            final(self).pending() == old(self).pending().difference(got@.to_set()),
            done == final(self).pending().is_empty(),
    {
        proof {
            use_type_invariant(&*self);
        }
        let mut taken = TcpClient { bufs: Vec::new(), remains: HashSet::new(), phase: ClientPhase::Closed };
        std::mem::swap(self, &mut taken);
        let TcpClient { bufs, mut remains, phase: _ } = taken;
        let ghost p0 = remains@;
        let mut k: usize = 0;
        while k < got.len()
            invariant
                k <= got.len(),
                remains@ == p0.difference(got@.take(k as int).to_set()),
                remains@.subset_of(p0),
            decreases got.len() - k,
        {
            remains.remove(&got[k]);
            proof {
                assert(got@.take(k + 1) =~= got@.take(k as int).push(got@[k as int]));
                assert(got@.take(k + 1).to_set() =~= got@.take(k as int).to_set().insert(got@[k as int])) by {
                    broadcast use vstd::seq_lib::group_seq_properties;
                }
                assert(remains@ =~= p0.difference(got@.take(k + 1).to_set()));
            }
            k = k + 1;
        }
        assert(got@.take(got.len() as int) =~= got@);
        let done = remains.is_empty();
        let phase = if done {
            ClientPhase::AwaitClose
        } else {
            ClientPhase::Transfer
        };
        *self = TcpClient { bufs, remains, phase };
        done
    }
}

/// Whether the client, with `pending` unacknowledged positions of `bufs`,
/// and the server, having received `received` and recorded `tagged`, agree:
/// every pending position is in range, the server has recorded exactly the
/// positions that are no longer pending, each with the buffer at that
/// position, and it has received one buffer per recorded position.
pub open spec fn in_agreement(
    bufs: Seq<Seq<u8>>,
    pending: Set<usize>,
    received: Seq<Seq<u8>>,
    tagged: Map<usize, Seq<u8>>,
) -> bool {
    &&& bufs.len() <= usize::MAX
    &&& pending.subset_of(positions(bufs.len()))
    &&& tagged.dom() == positions(bufs.len()).difference(pending)
    &&& forall|k: usize| #[trigger] tagged.contains_key(k) ==> tagged[k] == bufs[k as int]
    &&& received.len() == tagged.dom().len()
}

proof fn lemma_positions_len(n: nat)
    requires
        n <= usize::MAX,
    ensures
        positions(n).finite(),
        positions(n).len() == n,
    decreases n,
{
    if n == 0 {
        assert(positions(0) =~= Set::<usize>::empty());
    } else {
        lemma_positions_len((n - 1) as nat);
        assert(positions(n) =~= positions((n - 1) as nat).insert((n - 1) as usize));
    }
}

proof fn lemma_tag_all(m: Map<usize, Seq<u8>>, ps: Seq<Packet>)
    ensures
        tag_all(m, ps).dom() == m.dom() + seqnos(ps).to_set(),
        forall|k: usize|
            #[trigger] tag_all(m, ps).contains_key(k) ==> (exists|i: int|
                0 <= i < ps.len() && (#[trigger] ps[i]).seqno == k && tag_all(m, ps)[k] == ps[i].buf@) || (
            m.contains_key(k) && tag_all(m, ps)[k] == m[k]),
    decreases ps.len(),
{
    broadcast use vstd::seq_lib::group_seq_properties;

    if ps.len() == 0 {
        assert(seqnos(ps).to_set() =~= Set::<usize>::empty());
        assert(tag_all(m, ps).dom() =~= m.dom() + seqnos(ps).to_set());
    } else {
        let front = ps.drop_last();
        lemma_tag_all(m, front);
        assert(seqnos(ps) =~= seqnos(front).push(ps.last().seqno));
        assert(seqnos(ps).to_set() =~= seqnos(front).to_set().insert(ps.last().seqno));
        assert(tag_all(m, ps).dom() =~= m.dom() + seqnos(ps).to_set());
        let t = tag_all(m, ps);
        assert forall|k: usize| #[trigger] t.contains_key(k) implies (exists|i: int|
            0 <= i < ps.len() && (#[trigger] ps[i]).seqno == k && t[k] == ps[i].buf@) || (m.contains_key(k)
            && t[k] == m[k]) by {
            if k == ps.last().seqno {
                assert(ps[ps.len() - 1].seqno == k);
            } else {
                if exists|i: int| 0 <= i < front.len() && (#[trigger] front[i]).seqno == k && tag_all(m, front)[k] == front[i].buf@ {
                    let i = choose|i: int| 0 <= i < front.len() && (#[trigger] front[i]).seqno == k && tag_all(m, front)[k] == front[i].buf@;
                    assert(ps[i] == front[i]);
                }
            }
        }
    }
}

/// The transfer starts in agreement: every position pending, nothing
/// received or recorded.
pub proof fn transfer_starts_in_agreement(bufs: Seq<Seq<u8>>)
    requires
        bufs.len() <= usize::MAX,
    ensures
        in_agreement(bufs, positions(bufs.len()), Seq::empty(), Map::empty()),
{
    assert(Map::<usize, Seq<u8>>::empty().dom() =~= positions(bufs.len()).difference(positions(bufs.len())));
}

/// A round keeps the agreement: the client sends the packets of its pending
/// positions, the channel delivers some of them (each at most once, in any
/// order, unaltered), the server takes the delivered ones in and
/// acknowledges their sequence numbers, and the client drops those from its
/// pending positions.
pub proof fn round_keeps_agreement(
    bufs: Seq<Seq<u8>>,
    pending: Set<usize>,
    received: Seq<Seq<u8>>,
    tagged: Map<usize, Seq<u8>>,
    delivered: Seq<Packet>,
)
    requires
        in_agreement(bufs, pending, received, tagged),
        seqnos(delivered).no_duplicates(),
        forall|i: int| 0 <= i < delivered.len() ==> pending.contains(#[trigger] delivered[i].seqno),
        forall|i: int| 0 <= i < delivered.len() ==> (#[trigger] delivered[i]).buf@ == bufs[delivered[i].seqno as int],
    ensures
        in_agreement(
            bufs,
            pending.difference(seqnos(delivered).to_set()),
            received + packet_bufs(delivered),
            tag_all(tagged, delivered),
        ),
{
    broadcast use vstd::seq_lib::group_seq_properties;
    broadcast use vstd::set_lib::group_set_properties;

    let n = bufs.len();
    let acked = seqnos(delivered).to_set();
    let t = tag_all(tagged, delivered);
    lemma_tag_all(tagged, delivered);
    lemma_positions_len(n);
    assert forall|k: usize| acked.contains(k) implies pending.contains(k) by {
        let i = choose|i: int| 0 <= i < seqnos(delivered).len() && seqnos(delivered)[i] == k;
        assert(delivered[i].seqno == k);
    }
    assert(t.dom() =~= positions(n).difference(pending.difference(acked)));
    assert forall|k: usize| #[trigger] t.contains_key(k) implies t[k] == bufs[k as int] by {
        if exists|i: int| 0 <= i < delivered.len() && (#[trigger] delivered[i]).seqno == k && t[k] == delivered[i].buf@ {
            let i = choose|i: int| 0 <= i < delivered.len() && (#[trigger] delivered[i]).seqno == k && t[k] == delivered[i].buf@;
        }
    }
    seqnos(delivered).unique_seq_to_set();
    assert(tagged.dom().finite()) by {
        vstd::set_lib::lemma_set_subset_finite(positions(n), tagged.dom());
    }
    assert(tagged.dom().disjoint(acked));
    vstd::set_lib::lemma_set_disjoint_lens(tagged.dom(), acked);
}

/// The packets of a round can all be delivered: they carry distinct pending
/// positions, each with its buffer (and so does any selection of them).
pub proof fn sent_packets_are_deliverable(ps: Seq<Packet>, bufs: Seq<Seq<u8>>, pending: Set<usize>)
    requires
        sends_pending(ps, bufs, pending),
    ensures
        seqnos(ps).no_duplicates(),
        forall|i: int| 0 <= i < ps.len() ==> pending.contains(#[trigger] ps[i].seqno),
        forall|i: int| 0 <= i < ps.len() ==> (#[trigger] ps[i]).buf@ == bufs[ps[i].seqno as int],
{
    assert forall|i: int, j: int| 0 <= i < seqnos(ps).len() && 0 <= j < seqnos(ps).len() && i != j implies seqnos(
        ps,
    )[i] != seqnos(ps)[j] by {
        if i < j {
            assert(ps[i].seqno < ps[j].seqno);
        } else {
            assert(ps[j].seqno < ps[i].seqno);
        }
    }
}

/// When nothing is pending any more, the server, in agreement with the
/// client, may finish, and what it finishes with is exactly the client's
/// buffers, in order.
pub proof fn finished_transfer_delivers_all(
    bufs: Seq<Seq<u8>>,
    received: Seq<Seq<u8>>,
    tagged: Map<usize, Seq<u8>>,
)
    requires
        in_agreement(bufs, Set::empty(), received, tagged),
    ensures
        forall|k: usize| #[trigger] tagged.contains_key(k) ==> k < received.len(),
        settle(received, tagged) == bufs,
{
    lemma_positions_len(bufs.len());
    assert(tagged.dom() =~= positions(bufs.len()));
    assert(received.len() == bufs.len());
    assert forall|i: int| 0 <= i < bufs.len() implies settle(received, tagged)[i] == bufs[i] by {
        assert(positions(bufs.len()).contains(i as usize));
        assert(tagged.contains_key(i as usize));
    }
    assert(settle(received, tagged) =~= bufs);
}

} // verus!
