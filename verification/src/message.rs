//! What travels between nodes, and its mathematical view.
use crate::types::{BlockId, NodeRecord};
use vstd::prelude::*;

verus! {

/// An encoded block header.
#[derive(Debug, PartialEq, Eq)]
pub struct Header {
    pub bytes: Vec<u8>,
}

/// An encoded fragment (a transaction or a certificate).
#[derive(Debug, PartialEq, Eq)]
pub struct Fragment {
    pub bytes: Vec<u8>,
}

/// An encoded block.
#[derive(Debug, PartialEq, Eq)]
pub struct Block {
    pub bytes: Vec<u8>,
}

/// A set of node records exchanged to refresh membership knowledge.
#[derive(Debug, PartialEq, Eq)]
pub struct Gossip {
    pub nodes: Vec<NodeRecord>,
}

/// An item to hand to every node of the current view.
#[derive(Debug, PartialEq, Eq)]
pub enum PropagateMsg {
    Block(Header),
    Fragment(Fragment),
}

/// A message queued for one peer.
#[derive(Debug, PartialEq, Eq)]
pub enum PeerMessage {
    BlockAnnouncement(Header),
    Fragment(Fragment),
    Gossip(Gossip),
    SolicitBlocks(Vec<BlockId>),
    PullHeaders { from: Vec<BlockId>, to: BlockId },
}

/// The content of a [`PeerMessage`].
pub enum MessageView {
    BlockAnnouncement(Seq<u8>),
    Fragment(Seq<u8>),
    Gossip(Seq<NodeRecord>),
    SolicitBlocks(Seq<BlockId>),
    PullHeaders { from: Seq<BlockId>, to: BlockId },
}

impl View for Header {
    type V = Seq<u8>;

    open spec fn view(&self) -> Seq<u8> {
        self.bytes@
    }
}

impl View for Fragment {
    type V = Seq<u8>;

    open spec fn view(&self) -> Seq<u8> {
        self.bytes@
    }
}

impl View for Block {
    type V = Seq<u8>;

    open spec fn view(&self) -> Seq<u8> {
        self.bytes@
    }
}

impl View for Gossip {
    type V = Seq<NodeRecord>;

    open spec fn view(&self) -> Seq<NodeRecord> {
        self.nodes@
    }
}

impl View for PropagateMsg {
    type V = MessageView;

    open spec fn view(&self) -> MessageView {
        match self {
            PropagateMsg::Block(h) => MessageView::BlockAnnouncement(h@),
            PropagateMsg::Fragment(f) => MessageView::Fragment(f@),
        }
    }
}

impl View for PeerMessage {
    type V = MessageView;

    open spec fn view(&self) -> MessageView {
        match self {
            PeerMessage::BlockAnnouncement(h) => MessageView::BlockAnnouncement(h@),
            PeerMessage::Fragment(f) => MessageView::Fragment(f@),
            PeerMessage::Gossip(g) => MessageView::Gossip(g@),
            PeerMessage::SolicitBlocks(ids) => MessageView::SolicitBlocks(ids@),
            PeerMessage::PullHeaders { from, to } => MessageView::PullHeaders {
                from: from@,
                to: *to,
            },
        }
    }
}

/// A fresh vector with the bytes of `src`.
pub fn copy_bytes(src: &Vec<u8>) -> (out: Vec<u8>)
    ensures
        out@ == src@,
{
    let mut out: Vec<u8> = Vec::new();
    let mut i: usize = 0;
    while i < src.len()
        invariant
            i <= src.len(),
            out@ == src@.take(i as int),
        decreases src.len() - i,
    {
        out.push(src[i]);
        i = i + 1;
    }
    out
}

/// A fresh vector with the records of `src`.
pub fn copy_nodes(src: &Vec<NodeRecord>) -> (out: Vec<NodeRecord>)
    ensures
        out@ == src@,
{
    let mut out: Vec<NodeRecord> = Vec::new();
    let mut i: usize = 0;
    while i < src.len()
        invariant
            i <= src.len(),
            out@ == src@.take(i as int),
        decreases src.len() - i,
    {
        out.push(src[i]);
        i = i + 1;
    }
    out
}

/// A fresh vector with the identifiers of `src`.
pub fn copy_ids(src: &Vec<BlockId>) -> (out: Vec<BlockId>)
    ensures
        out@ == src@,
{
    let mut out: Vec<BlockId> = Vec::new();
    let mut i: usize = 0;
    while i < src.len()
        invariant
            i <= src.len(),
            out@ == src@.take(i as int),
        decreases src.len() - i,
    {
        out.push(src[i]);
        i = i + 1;
    }
    out
}

impl Gossip {
    /// The gossip that tells of `nodes`, in their order.
    pub fn from_nodes(nodes: Vec<NodeRecord>) -> (gossip: Gossip)
        ensures
            gossip@ == nodes@,
    {
        Gossip { nodes }
    }
}

impl PropagateMsg {
    /// The message that carries this item to one peer.
    pub fn to_peer_message(&self) -> (msg: PeerMessage)
        ensures
            msg@ == self@,
    {
        match self {
            PropagateMsg::Block(h) => PeerMessage::BlockAnnouncement(
                Header { bytes: copy_bytes(&h.bytes) },
            ),
            PropagateMsg::Fragment(f) => PeerMessage::Fragment(
                Fragment { bytes: copy_bytes(&f.bytes) },
            ),
        }
    }
}

impl PeerMessage {
    /// A second message with the same content.
    pub fn duplicate(&self) -> (copy: PeerMessage)
        ensures
            copy@ == self@,
    {
        match self {
            PeerMessage::BlockAnnouncement(h) => PeerMessage::BlockAnnouncement(
                Header { bytes: copy_bytes(&h.bytes) },
            ),
            PeerMessage::Fragment(f) => PeerMessage::Fragment(
                Fragment { bytes: copy_bytes(&f.bytes) },
            ),
            PeerMessage::Gossip(g) => PeerMessage::Gossip(Gossip { nodes: copy_nodes(&g.nodes) }),
            PeerMessage::SolicitBlocks(ids) => PeerMessage::SolicitBlocks(copy_ids(ids)),
            PeerMessage::PullHeaders { from, to } => PeerMessage::PullHeaders {
                from: copy_ids(from),
                to: *to,
            },
        }
    }
}

} // verus!
