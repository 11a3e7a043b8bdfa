//! Cold start: the trusted peers are tried one after the other, in an order
//! drawn at random, until one of them serves. The caller talks to the peer
//! that is named and reports how it went.
use crate::message::Block;
use crate::types::{Configuration, HeaderHash, Peer, Protocol, SocketAddress, TrustedPeer};
use rand::seq::SliceRandom;
use vstd::prelude::*;

verus! {

/// Why no block was fetched.
#[derive(Clone, Copy, PartialEq, Eq, Structural, Debug)]
pub enum FetchBlockError {
    /// The settings name no trusted peer.
    NoTrustedPeers,
    /// Every trusted peer was asked, and none served the block.
    CouldNotDownloadBlock { block: HeaderHash },
}

/// How the exchange with one peer went.
#[derive(Clone, Copy, PartialEq, Eq, Structural, Debug)]
pub enum AttemptResult {
    /// The peer served.
    Completed,
    /// The peer could not be reached.
    ConnectFailed,
    /// The peer was reached and the exchange failed.
    Failed,
}

/// What to do next.
#[derive(Clone, Copy, PartialEq, Eq, Structural, Debug)]
pub enum Step {
    /// Talk to this peer, and report.
    Attempt(Peer),
    /// Stop: a peer served (`true`), or every peer was tried in vain.
    Finished(bool),
}

/// A pass over the trusted peers as contracts see it.
pub struct FailoverView {
    /// The peers, in the order in which they are tried.
    pub order: Seq<SocketAddress>,
    /// The number of peers that were tried in vain.
    pub cursor: nat,
    /// Whether the peer after those served.
    pub done: bool,
}

/// A pass over the trusted peers.
#[derive(Debug)]
pub struct Failover {
    order: Vec<SocketAddress>,
    cursor: usize,
    done: bool,
}

/// The endpoints of the trusted peers that have one, in the order of the
/// settings.
pub open spec fn addressable(peers: Seq<TrustedPeer>) -> Seq<SocketAddress> {
    peers.filter(|p: TrustedPeer| p.address.socket() is Some).map_values(
        |p: TrustedPeer| p.address.socket().unwrap(),
    )
}

impl FailoverView {
    /// A pass that has tried no one.
    pub open spec fn fresh(order: Seq<SocketAddress>) -> FailoverView {
        FailoverView { order, cursor: 0, done: false }
    }

    pub open spec fn wf(self) -> bool {
        self.cursor <= self.order.len() && (self.done ==> self.cursor < self.order.len())
    }

    /// Whether the pass is over.
    pub open spec fn finished(self) -> bool {
        self.done || self.cursor >= self.order.len()
    }

    /// What to do next.
    pub open spec fn current(self) -> Step {
        if self.done {
            Step::Finished(true)
        } else if self.cursor < self.order.len() {
            Step::Attempt(Peer::grpc(self.order[self.cursor as int]))
        } else {
            Step::Finished(false)
        }
    }

    /// The pass after the peer named by `current` was talked to. A pass
    /// that is over takes no report.
    pub open spec fn reported(self, result: AttemptResult) -> FailoverView {
        if self.finished() {
            self
        } else if result == AttemptResult::Completed {
            FailoverView { done: true, ..self }
        } else {
            FailoverView { cursor: self.cursor + 1, ..self }
        }
    }

    /// The pass after the reports `results`, in their order.
    pub open spec fn run(self, results: Seq<AttemptResult>) -> FailoverView
        decreases results.len(),
    {
        if results.len() == 0 {
            self
        } else {
            self.run(results.drop_last()).reported(results.last())
        }
    }

    /// The peers that were talked to, in the order in which they were.
    pub open spec fn attempted(self) -> Seq<SocketAddress> {
        if self.done {
            self.order.take(self.cursor as int + 1)
        } else {
            self.order.take(self.cursor as int)
        }
    }
}

/// A pass stays well formed, never talks to a peer twice, and takes no
/// report once it is over.
pub proof fn lemma_run(v: FailoverView, results: Seq<AttemptResult>)
    requires
        v.wf(),
    ensures
        v.run(results).wf(),
        v.run(results).order == v.order,
        v.run(results).cursor >= v.cursor,
        v.run(results).attempted().len() <= v.attempted().len() + results.len(),
        v.finished() ==> v.run(results) == v,
    decreases results.len(),
{
    if results.len() > 0 {
        lemma_run(v, results.drop_last());
    }
}

/// Where every report tells of a failure, each report moves the pass on by
/// one peer, as long as there are peers.
pub proof fn lemma_run_failures(v: FailoverView, results: Seq<AttemptResult>)
    requires
        v.wf(),
        !v.done,
        forall|i: int| 0 <= i < results.len() ==> #[trigger] results[i] != AttemptResult::Completed,
    ensures
        !v.run(results).done,
        v.run(results).order == v.order,
        v.run(results).cursor == if v.cursor + results.len() <= v.order.len() {
            v.cursor + results.len()
        } else {
            v.order.len()
        },
    decreases results.len(),
{
    if results.len() > 0 {
        let head = results.drop_last();
        assert forall|i: int| 0 <= i < head.len() implies #[trigger] head[i]
            != AttemptResult::Completed by {
            assert(head[i] == results[i]);
        }
        lemma_run_failures(v, head);
        assert(results.last() == results[results.len() - 1]);
    }
}

/// Exhaustion: where every peer fails, every peer was talked to exactly
/// once, in the order of the pass, and the pass ends without success.
pub proof fn lemma_all_fail(order: Seq<SocketAddress>, results: Seq<AttemptResult>)
    requires
        results.len() >= order.len(),
        forall|i: int| 0 <= i < results.len() ==> #[trigger] results[i] != AttemptResult::Completed,
    ensures
        FailoverView::fresh(order).run(results).current() == Step::Finished(false),
        FailoverView::fresh(order).run(results).attempted() == order,
        FailoverView::fresh(order).run(results.take(order.len() as int)).attempted() == order,
{
    let v = FailoverView::fresh(order);
    lemma_run_failures(v, results);
    assert(v.run(results).attempted() =~= order);
    let firsts = results.take(order.len() as int);
    assert forall|i: int| 0 <= i < firsts.len() implies #[trigger] firsts[i]
        != AttemptResult::Completed by {
        assert(firsts[i] == results[i]);
    }
    lemma_run_failures(v, firsts);
    assert(v.run(firsts).attempted() =~= order);
}

/// First success halts: where the peers before the `k`-th fail and the
/// `k`-th serves, the pass ends with success, the peers up to the `k`-th
/// were talked to once each, in order, and no peer after it was talked to,
/// whatever is reported later.
pub proof fn lemma_first_success(order: Seq<SocketAddress>, results: Seq<AttemptResult>, k: int)
    requires
        0 <= k < results.len(),
        k < order.len(),
        results[k] == AttemptResult::Completed,
        forall|i: int| 0 <= i < k ==> #[trigger] results[i] != AttemptResult::Completed,
    ensures
        FailoverView::fresh(order).run(results).current() == Step::Finished(true),
        FailoverView::fresh(order).run(results).attempted() == order.take(k + 1),
        FailoverView::fresh(order).run(results.take(k)).current() == Step::Attempt(
            Peer::grpc(order[k]),
        ),
    decreases results.len(),
{
    let v = FailoverView::fresh(order);
    let head = results.drop_last();
    let firsts = results.take(k);
    assert forall|i: int| 0 <= i < firsts.len() implies #[trigger] firsts[i]
        != AttemptResult::Completed by {
        assert(firsts[i] == results[i]);
    }
    lemma_run_failures(v, firsts);
    if k == results.len() - 1 {
        assert(head =~= firsts);
        assert(results.last() == results[k]);
    } else {
        assert(head[k] == results[k]);
        assert forall|i: int| 0 <= i < k implies #[trigger] head[i]
            != AttemptResult::Completed by {
            assert(head[i] == results[i]);
        }
        lemma_first_success(order, head, k);
        assert(head.take(k) =~= firsts);
    }
}

impl View for Failover {
    type V = FailoverView;

    closed spec fn view(&self) -> FailoverView {
        FailoverView { order: self.order@, cursor: self.cursor as nat, done: self.done }
    }
}

impl Failover {
    /// A pass over `order` that has tried no one.
    pub fn new(order: Vec<SocketAddress>) -> (run: Failover)
        ensures
            run@ == FailoverView::fresh(order@),
    {
        Failover { order, cursor: 0, done: false }
    }

    /// What to do next.
    pub fn current(&self) -> (step: Step)
        ensures
            step == self@.current(),
    {
        if self.done {
            Step::Finished(true)
        } else if self.cursor < self.order.len() {
            Step::Attempt(Peer::new(self.order[self.cursor], Protocol::Grpc))
        } else {
            Step::Finished(false)
        }
    }

    /// Takes in how the exchange with the peer named by `current` went.
    pub fn report(&mut self, result: AttemptResult)
        ensures
            final(self)@ == old(self)@.reported(result),
    {
        if !self.done && self.cursor < self.order.len() {
            match result {
                AttemptResult::Completed => {
                    self.done = true;
                },
                _ => {
                    self.cursor = self.cursor + 1;
                },
            }
        }
    }

    /// Whether a peer served.
    pub fn bootstrapped(&self) -> (r: bool)
        ensures
            r == self@.done,
    {
        self.done
    }

    /// The peers in the order in which they are tried.
    pub fn order(&self) -> (order: &Vec<SocketAddress>)
        ensures
            order@ == self@.order,
    {
        &self.order
    }
}

/// Puts `addresses` in an order drawn at random, in place.
///
/// Trusted: this is `rand::seq::SliceRandom::shuffle` on the thread's
/// generator, `rand::thread_rng`. The shuffle only swaps elements of the
/// slice, so what comes out holds what went in, each address as often as
/// before. Nothing is claimed of the order.
#[verifier::external_body]
fn shuffle(addresses: &mut Vec<SocketAddress>)
    ensures
        final(addresses)@.to_multiset() == old(addresses)@.to_multiset(),
{
    let mut rng = rand::thread_rng();
    addresses.shuffle(&mut rng);
}

/// The endpoints of the trusted peers that have one, in the order of the
/// settings.
pub fn trusted_peer_addresses(config: &Configuration) -> (peers: Vec<SocketAddress>)
    ensures
        peers@ == addressable(config.trusted_peers@),
{
    let mut peers: Vec<SocketAddress> = Vec::new();
    let mut i: usize = 0;
    let ghost all = config.trusted_peers@;
    let ghost keep = |p: TrustedPeer| p.address.socket() is Some;
    let ghost endpoint = |p: TrustedPeer| p.address.socket().unwrap();
    proof {
        reveal(Seq::filter);
        assert(all.take(0) =~= Seq::empty());
        assert(all.take(0).filter(keep).map_values(endpoint) =~= Seq::empty());
    }
    while i < config.trusted_peers.len()
        invariant
            i <= all.len(),
            all == config.trusted_peers@,
            keep == (|p: TrustedPeer| p.address.socket() is Some),
            endpoint == (|p: TrustedPeer| p.address.socket().unwrap()),
            peers@ == all.take(i as int).filter(keep).map_values(endpoint),
        decreases all.len() - i,
    {
        proof {
            reveal(Seq::filter);
            assert(all.take(i + 1).drop_last() =~= all.take(i as int));
        }
        match config.trusted_peers[i].address.to_socketaddr() {
            Some(addr) => {
                peers.push(addr);
                assert(peers@ =~= all.take(i + 1).filter(keep).map_values(endpoint));
            },
            None => {},
        }
        i = i + 1;
    }
    assert(all.take(i as int) =~= all);
    peers
}

/// The endpoints of the trusted peers that have one, in an order drawn at
/// random: each of them as often as the settings name it.
pub fn trusted_peers_shuffled(config: &Configuration) -> (peers: Vec<SocketAddress>)
    ensures
        peers@.to_multiset() == addressable(config.trusted_peers@).to_multiset(),
        peers@.len() == addressable(config.trusted_peers@).len(),
{
    let mut peers = trusted_peer_addresses(config);
    let ghost before = peers@;
    shuffle(&mut peers);
    proof {
        before.to_multiset_ensures();
        peers@.to_multiset_ensures();
    }
    peers
}

/// Starts the bootstrap from the trusted peers: a pass over their
/// endpoints in an order drawn at random. The pass ends with the first peer
/// that serves; a peer that fails, however, only moves it on.
pub fn bootstrap(config: &Configuration) -> (run: Failover)
    requires
        config.protocol == Protocol::Grpc,
    ensures
        run@.cursor == 0,
        !run@.done,
        run@.wf(),
        run@.order.to_multiset() == addressable(config.trusted_peers@).to_multiset(),
        run@.order.len() == addressable(config.trusted_peers@).len(),
{
    Failover::new(trusted_peers_shuffled(config))
}

/// The download of one block from the trusted peers, as contracts see it.
pub struct BlockFetchView {
    pub run: FailoverView,
    /// The block asked for.
    pub hash: HeaderHash,
    /// The block, once a peer has served it.
    pub block: Option<Seq<u8>>,
}

/// The download of one block from the trusted peers.
#[derive(Debug)]
pub struct BlockFetch {
    run: Failover,
    hash: HeaderHash,
    block: Option<Block>,
}

impl BlockFetchView {
    pub open spec fn wf(self) -> bool {
        self.run.wf() && (self.block is Some <==> self.run.done)
    }

    /// The download after the peer named by `current` was asked: `Some` is
    /// the block it served, `None` a failure.
    pub open spec fn reported(self, outcome: Option<Seq<u8>>) -> BlockFetchView {
        if self.run.finished() {
            self
        } else {
            match outcome {
                Some(block) => BlockFetchView {
                    run: self.run.reported(AttemptResult::Completed),
                    block: Some(block),
                    ..self
                },
                None => BlockFetchView { run: self.run.reported(AttemptResult::Failed), ..self },
            }
        }
    }

    /// The download after the outcomes `outcomes`, in their order.
    pub open spec fn after(self, outcomes: Seq<Option<Seq<u8>>>) -> BlockFetchView
        decreases outcomes.len(),
    {
        if outcomes.len() == 0 {
            self
        } else {
            self.after(outcomes.drop_last()).reported(outcomes.last())
        }
    }

    /// What the download comes to.
    pub open spec fn result(self) -> Result<Seq<u8>, FetchBlockError> {
        match self.block {
            Some(block) => Ok(block),
            None => Err(FetchBlockError::CouldNotDownloadBlock { block: self.hash }),
        }
    }
}

/// The reports that a run of outcomes amounts to.
pub open spec fn as_results(outcomes: Seq<Option<Seq<u8>>>) -> Seq<AttemptResult> {
    outcomes.map_values(
        |o: Option<Seq<u8>>|
            if o is Some {
                AttemptResult::Completed
            } else {
                AttemptResult::Failed
            },
    )
}

/// A download goes over the peers as any pass does, and holds a block
/// exactly when a peer served.
pub proof fn lemma_fetch_after(v: BlockFetchView, outcomes: Seq<Option<Seq<u8>>>)
    requires
        v.wf(),
    ensures
        v.after(outcomes).wf(),
        v.after(outcomes).hash == v.hash,
        v.after(outcomes).run == v.run.run(as_results(outcomes)),
    decreases outcomes.len(),
{
    if outcomes.len() > 0 {
        lemma_fetch_after(v, outcomes.drop_last());
        assert(as_results(outcomes).drop_last() =~= as_results(outcomes.drop_last()));
        lemma_run(v.run, as_results(outcomes.drop_last()));
    }
}

/// Exhaustion of a download: where every peer fails, the download ends
/// with the error that names the block, after each peer was asked exactly
/// once, in the order of the pass.
pub proof fn lemma_fetch_all_fail(
    order: Seq<SocketAddress>,
    hash: HeaderHash,
    outcomes: Seq<Option<Seq<u8>>>,
)
    requires
        outcomes.len() >= order.len(),
        forall|i: int| 0 <= i < outcomes.len() ==> #[trigger] outcomes[i] is None,
    ensures
        ({
            let end = (BlockFetchView { run: FailoverView::fresh(order), hash, block: None }).after(
                outcomes,
            );
            &&& end.result() == Err::<Seq<u8>, FetchBlockError>(
                FetchBlockError::CouldNotDownloadBlock { block: hash },
            )
            &&& end.run.current() == Step::Finished(false)
            &&& end.run.attempted() == order
        }),
{
    let v = BlockFetchView { run: FailoverView::fresh(order), hash, block: None };
    lemma_fetch_after(v, outcomes);
    assert forall|i: int| 0 <= i < as_results(outcomes).len() implies #[trigger] as_results(
        outcomes,
    )[i] != AttemptResult::Completed by {
        assert(outcomes[i] is None);
    }
    lemma_all_fail(order, as_results(outcomes));
}

impl View for BlockFetch {
    type V = BlockFetchView;

    closed spec fn view(&self) -> BlockFetchView {
        BlockFetchView {
            run: self.run@,
            hash: self.hash,
            block: match self.block {
                Some(b) => Some(b@),
                None => None,
            },
        }
    }
}

impl BlockFetch {
    /// What to do next.
    pub fn current(&self) -> (step: Step)
        ensures
            step == self@.run.current(),
    {
        self.run.current()
    }

    /// Takes in what the peer named by `current` answered: `Some` is the
    /// block it served, `None` a failure.
    pub fn report(&mut self, outcome: Option<Block>)
        ensures
            final(self)@ == old(self)@.reported(
                match outcome {
                    Some(b) => Some(b@),
                    None => None,
                },
            ),
    {
        match self.run.current() {
            Step::Finished(_) => {},
            Step::Attempt(_) => match outcome {
                Some(block) => {
                    self.run.report(AttemptResult::Completed);
                    self.block = Some(block);
                },
                None => {
                    self.run.report(AttemptResult::Failed);
                },
            },
        }
    }

    /// What the download came to: the block, or the error that names it.
    pub fn finish(self) -> (r: Result<Block, FetchBlockError>)
        ensures
            match r {
                Ok(block) => self@.result() == Ok::<Seq<u8>, FetchBlockError>(block@),
                Err(e) => self@.result() == Err::<Seq<u8>, FetchBlockError>(e),
            },
    {
        match self.block {
            Some(block) => Ok(block),
            None => Err(FetchBlockError::CouldNotDownloadBlock { block: self.hash }),
        }
    }
}

/// Starts the download of the block `hash` from the trusted peers. Where
/// the settings name no trusted peer there is nothing to try, and the error
/// says so; else the download is a pass over the peers' endpoints in an
/// order drawn at random.
pub fn fetch_block(config: &Configuration, hash: &HeaderHash) -> (r: Result<
    BlockFetch,
    FetchBlockError,
>)
    requires
        config.protocol == Protocol::Grpc,
    ensures
        config.trusted_peers@.len() == 0 <==> r is Err,
        match r {
            Err(e) => e == FetchBlockError::NoTrustedPeers,
            Ok(fetch) => fetch@.wf() && fetch@.hash == *hash && fetch@.block is None
                && fetch@.run.cursor == 0 && !fetch@.run.done
                && fetch@.run.order.to_multiset() == addressable(
                config.trusted_peers@,
            ).to_multiset() && fetch@.run.order.len() == addressable(config.trusted_peers@).len(),
        },
{
    if config.trusted_peers.len() == 0 {
        return Err(FetchBlockError::NoTrustedPeers);
    }
    Ok(BlockFetch { run: Failover::new(trusted_peers_shuffled(config)), hash: *hash, block: None })
}

} // verus!
