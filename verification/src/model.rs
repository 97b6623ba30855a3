//! The data model: items, bids, auctions, and the commands that act on them.
//!
//! Every type that owns heap data has a view that replaces `Vec<u8>` by
//! `Seq<u8>` and `String` by `Seq<char>`; contracts are stated over views.

use vstd::prelude::*;

verus! {

/// The bytes that identify an account on the ledger.
#[derive(Debug, PartialEq, Eq)]
pub struct Address {
    pub bytes: Vec<u8>,
}

impl View for Address {
    type V = Seq<u8>;

    open spec fn view(&self) -> Seq<u8> {
        self.bytes@
    }
}

impl Address {
    pub fn new(bytes: Vec<u8>) -> (r: Address)
        ensures
            r@ == bytes@,
    {
        Address { bytes }
    }

    pub fn as_bytes(&self) -> (r: &Vec<u8>)
        ensures
            r@ == self@,
    {
        &self.bytes
    }
}

impl Clone for Address {
    fn clone(&self) -> (r: Address)
        ensures
            r@ == self@,
    {
        Address { bytes: self.bytes.clone() }
    }
}

/// What is being auctioned. Written once at creation, never changed.
#[derive(Debug, PartialEq, Eq)]
pub struct Item {
    pub name: String,
    pub description: String,
    pub image_url: String,
}

pub struct ItemView {
    pub name: Seq<char>,
    pub description: Seq<char>,
    pub image_url: Seq<char>,
}

impl View for Item {
    type V = ItemView;

    open spec fn view(&self) -> ItemView {
        ItemView { name: self.name@, description: self.description@, image_url: self.image_url@ }
    }
}

impl Item {
    pub fn new(name: String, description: String, image_url: String) -> (r: Item)
        ensures
            r@ == (ItemView { name: name@, description: description@, image_url: image_url@ }),
    {
        Item { name, description, image_url }
    }
}

impl Clone for Item {
    fn clone(&self) -> (r: Item)
        ensures
            r@ == self@,
    {
        Item {
            name: self.name.clone(),
            description: self.description.clone(),
            image_url: self.image_url.clone(),
        }
    }
}

/// One recorded bid. `sequence` is the ledger sequence number under which
/// the bid was recorded; among bids of equal amount the lowest one wins.
#[derive(Debug, PartialEq, Eq)]
pub struct Bid {
    pub bidder: Address,
    pub amount: u64,
    pub sequence: u64,
}

pub struct BidView {
    pub bidder: Seq<u8>,
    pub amount: u64,
    pub sequence: u64,
}

impl View for Bid {
    type V = BidView;

    open spec fn view(&self) -> BidView {
        BidView { bidder: self.bidder@, amount: self.amount, sequence: self.sequence }
    }
}

impl Bid {
    pub fn new(bidder: Address, amount: u64, sequence: u64) -> (r: Bid)
        ensures
            r@ == (BidView { bidder: bidder@, amount, sequence }),
    {
        Bid { bidder, amount, sequence }
    }
}

impl Clone for Bid {
    fn clone(&self) -> (r: Bid)
        ensures
            r@ == self@,
    {
        Bid { bidder: self.bidder.clone(), amount: self.amount, sequence: self.sequence }
    }
}

/// The view of an optional bid.
pub open spec fn bid_view(bid: Option<Bid>) -> Option<BidView> {
    match bid {
        Some(b) => Some(b@),
        None => None,
    }
}

/// The views of a sequence of bids, in order.
pub open spec fn bid_views(bids: Seq<Bid>) -> Seq<BidView> {
    bids.map_values(|b: Bid| b@)
}

/// Where an auction stands. `Closed`, `Cancelled` and `Settled` are final.
#[derive(Clone, Copy, Debug, PartialEq, Eq, Structural)]
pub enum AuctionState {
    Pending,
    Active,
    Closed,
    Cancelled,
    Settled,
}

impl AuctionState {
    pub open spec fn terminal(self) -> bool {
        self == AuctionState::Closed || self == AuctionState::Cancelled || self
            == AuctionState::Settled
    }

    pub fn is_terminal(&self) -> (r: bool)
        ensures
            r == self.terminal(),
    {
        match self {
            AuctionState::Pending => false,
            AuctionState::Active => false,
            AuctionState::Closed => true,
            AuctionState::Cancelled => true,
            AuctionState::Settled => true,
        }
    }
}

/// A snapshot of one auction, as derived from the ledger.
///
/// `version` counts the events that were accepted into the snapshot, the
/// creation included, so a snapshot with a lower version is the older one.
#[derive(Debug, PartialEq, Eq)]
pub struct Auction {
    pub id: u64,
    pub item: Item,
    pub start_time: u64,
    pub end_time: u64,
    pub current_highest_bid: Option<Bid>,
    pub state: AuctionState,
    pub version: u64,
}

pub struct AuctionView {
    pub id: u64,
    pub item: ItemView,
    pub start_time: u64,
    pub end_time: u64,
    pub current_highest_bid: Option<BidView>,
    pub state: AuctionState,
    pub version: u64,
}

impl View for Auction {
    type V = AuctionView;

    open spec fn view(&self) -> AuctionView {
        AuctionView {
            id: self.id,
            item: self.item@,
            start_time: self.start_time,
            end_time: self.end_time,
            current_highest_bid: bid_view(self.current_highest_bid),
            state: self.state,
            version: self.version,
        }
    }
}

impl Clone for Auction {
    fn clone(&self) -> (r: Auction)
        ensures
            r@ == self@,
    {
        let bid = match &self.current_highest_bid {
            Some(b) => Some(b.clone()),
            None => None,
        };
        Auction {
            id: self.id,
            item: self.item.clone(),
            start_time: self.start_time,
            end_time: self.end_time,
            current_highest_bid: bid,
            state: self.state,
            version: self.version,
        }
    }
}

/// The five kinds of command, without their fields.
#[derive(Clone, Copy, Debug, PartialEq, Eq, Structural)]
pub enum CommandKind {
    Create,
    Bid,
    Close,
    Cancel,
    Extend,
}

/// An operation that a client asks the ledger to record.
#[derive(Debug, PartialEq, Eq)]
pub enum Command {
    Create { item: Item, start_time: u64, end_time: u64 },
    Bid { auction_id: u64, bidder: Address, amount: u64 },
    Close { auction_id: u64 },
    Cancel { auction_id: u64 },
    Extend { auction_id: u64, new_end_time: u64 },
}

pub enum CommandView {
    Create { item: ItemView, start_time: u64, end_time: u64 },
    Bid { auction_id: u64, bidder: Seq<u8>, amount: u64 },
    Close { auction_id: u64 },
    Cancel { auction_id: u64 },
    Extend { auction_id: u64, new_end_time: u64 },
}

impl CommandView {
    pub open spec fn kind(self) -> CommandKind {
        match self {
            CommandView::Create { .. } => CommandKind::Create,
            CommandView::Bid { .. } => CommandKind::Bid,
            CommandView::Close { .. } => CommandKind::Close,
            CommandView::Cancel { .. } => CommandKind::Cancel,
            CommandView::Extend { .. } => CommandKind::Extend,
        }
    }
}

impl View for Command {
    type V = CommandView;

    open spec fn view(&self) -> CommandView {
        match *self {
            Command::Create { item, start_time, end_time } => CommandView::Create {
                item: item@,
                start_time,
                end_time,
            },
            Command::Bid { auction_id, bidder, amount } => CommandView::Bid {
                auction_id,
                bidder: bidder@,
                amount,
            },
            Command::Close { auction_id } => CommandView::Close { auction_id },
            Command::Cancel { auction_id } => CommandView::Cancel { auction_id },
            Command::Extend { auction_id, new_end_time } => CommandView::Extend {
                auction_id,
                new_end_time,
            },
        }
    }
}

impl Command {
    pub fn kind(&self) -> (r: CommandKind)
        ensures
            r == self@.kind(),
    {
        match self {
            Command::Create { .. } => CommandKind::Create,
            Command::Bid { .. } => CommandKind::Bid,
            Command::Close { .. } => CommandKind::Close,
            Command::Cancel { .. } => CommandKind::Cancel,
            Command::Extend { .. } => CommandKind::Extend,
        }
    }
}

impl Clone for Command {
    fn clone(&self) -> (r: Command)
        ensures
            r@ == self@,
    {
        match self {
            Command::Create { item, start_time, end_time } => Command::Create {
                item: item.clone(),
                start_time: *start_time,
                end_time: *end_time,
            },
            Command::Bid { auction_id, bidder, amount } => Command::Bid {
                auction_id: *auction_id,
                bidder: bidder.clone(),
                amount: *amount,
            },
            Command::Close { auction_id } => Command::Close { auction_id: *auction_id },
            Command::Cancel { auction_id } => Command::Cancel { auction_id: *auction_id },
            Command::Extend { auction_id, new_end_time } => Command::Extend {
                auction_id: *auction_id,
                new_end_time: *new_end_time,
            },
        }
    }
}

} // verus!
