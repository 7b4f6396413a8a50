//! Where the chain is kept.

use vstd::prelude::*;

use crate::best_chain::{BestChain, BestChainView};
use crate::error::StoreError;
use crate::hash::BlockHash;
use crate::notification::{notification_views, Notification, NotificationView};
use crate::primitives::BlockHeader;

verus! {

/// A header as it is stored, with what is known of its block.
#[derive(Clone, Copy, Debug)]
pub enum DiskBlockHeader {
    /// The block was validated. Holds its height.
    FullyValid(BlockHeader, u32),
    /// The block is not on the chain.
    Orphan(BlockHeader),
    /// Only the header was validated. Holds its height.
    HeadersOnly(BlockHeader, u32),
}

impl DiskBlockHeader {
    /// The header alone.
    pub open spec fn header_of(self) -> BlockHeader {
        match self {
            DiskBlockHeader::FullyValid(header, _) => header,
            DiskBlockHeader::Orphan(header) => header,
            DiskBlockHeader::HeadersOnly(header, _) => header,
        }
    }

    /// The header alone.
    pub fn header(&self) -> (header: BlockHeader)
        ensures
            header == self.header_of(),
    {
        match *self {
            DiskBlockHeader::FullyValid(header, _) => header,
            DiskBlockHeader::Orphan(header) => header,
            DiskBlockHeader::HeadersOnly(header, _) => header,
        }
    }
}

/// A store for headers, the accumulator and the best chain. Nothing is assumed of what it answers.
pub trait ChainStore: Sized {
    /// Keeps the serialized accumulator.
    fn save_roots(&self, roots: Vec<u8>) -> Result<(), StoreError>;

    /// The serialized accumulator that was kept last, if any.
    fn load_roots(&self) -> Result<Option<Vec<u8>>, StoreError>;

    /// The header of a block, if it is known.
    fn get_header(&self, block_hash: &BlockHash) -> Result<Option<DiskBlockHeader>, StoreError>;

    /// Keeps a header, and its block as the one at `height`.
    fn save_header(&self, header: &DiskBlockHeader, height: u32) -> Result<(), StoreError>;

    /// The block at a height, if one is known.
    fn get_block_hash(&self, height: u32) -> Result<Option<BlockHash>, StoreError>;

    /// Keeps the best chain.
    fn save_height(&self, height: &BestChain) -> Result<(), StoreError>;

    /// The best chain that was kept last, if any.
    fn load_height(&self) -> Result<Option<BestChain>, StoreError>;

    /// Makes everything durable that was kept.
    fn flush(&self) -> Result<(), StoreError>;
}

/// Something that went out from the chain: a notification to those who listen, or something that
/// the store was told, with its answer.
pub enum Event {
    Notify(NotificationView),
    Roots(Seq<u8>, Result<(), StoreError>),
    Header(DiskBlockHeader, u32, Result<(), StoreError>),
    Height(BestChainView, Result<(), StoreError>),
    Flush(Result<(), StoreError>),
}

/// `store` can have been told this, and have answered so. It is told no notifications.
pub open spec fn answered<P: ChainStore>(store: P, event: Event) -> bool {
    match event {
        Event::Notify(_) => true,
        Event::Roots(bytes, reply) => exists|roots: Vec<u8>|
            roots@ == bytes && #[trigger] call_ensures(P::save_roots, (&store, roots), reply),
        Event::Header(header, height, reply) => call_ensures(
            P::save_header,
            (&store, &header, height),
            reply,
        ),
        Event::Height(view, reply) => exists|chain: BestChain|
            chain@ == view && #[trigger] call_ensures(P::save_height, (&store, &chain), reply),
        Event::Flush(reply) => call_ensures(P::flush, (&store,), reply),
    }
}

/// A store and the notifications that wait to be sent, together with a record of all that went out
/// through them, in order.
pub struct Journal<P: ChainStore> {
    inner: P,
    outbox: Vec<Notification>,
    log: Ghost<Seq<Event>>,
}

impl<P: ChainStore> Journal<P> {
    pub closed spec fn store(self) -> P {
        self.inner
    }

    /// The notifications that wait to be sent, oldest first.
    pub closed spec fn outbox(self) -> Seq<NotificationView> {
        notification_views(self.outbox@)
    }

    /// What went out, in order.
    pub closed spec fn events(self) -> Seq<Event> {
        self.log@
    }

    /// Wraps a store to which nothing went out yet.
    pub fn new(store: P) -> (journal: Journal<P>)
        ensures
            journal.store() == store,
            journal.outbox() == Seq::<NotificationView>::empty(),
            journal.events() == Seq::<Event>::empty(),
    {
        let journal = Journal { inner: store, outbox: Vec::new(), log: Ghost(Seq::empty()) };
        assert(journal.outbox() =~= Seq::empty());
        journal
    }

    /// `self` is what `before` becomes when its store is told `write` and answers.
    pub open spec fn follows(self, before: Journal<P>, write: Event) -> bool {
        &&& self.store() == before.store()
        &&& self.outbox() == before.outbox()
        &&& self.events() == before.events().push(write)
        &&& answered(before.store(), write)
    }

    /// Puts a notification with those that wait to be sent.
    pub fn notify(&mut self, notification: Notification)
        ensures
            final(self).store() == old(self).store(),
            final(self).outbox() == old(self).outbox().push(notification@),
            final(self).events() == old(self).events().push(Event::Notify(notification@)),
    {
        let ghost told = notification@;
        self.outbox.push(notification);
        assert(self.outbox() =~= old(self).outbox().push(told));
        proof {
            self.log@ = self.log@.push(Event::Notify(told));
        }
    }

    /// Takes all notifications that wait to be sent.
    pub fn take_outbox(&mut self) -> (notifications: Vec<Notification>)
        ensures
            notification_views(notifications@) == old(self).outbox(),
            final(self).store() == old(self).store(),
            final(self).outbox() == Seq::<NotificationView>::empty(),
            final(self).events() == old(self).events(),
    {
        let mut notifications: Vec<Notification> = Vec::new();
        notifications.append(&mut self.outbox);
        assert(notification_views(notifications@) =~= old(self).outbox());
        assert(self.outbox() =~= Seq::empty());
        notifications
    }

    pub fn save_roots(&mut self, roots: Vec<u8>) -> (reply: Result<(), StoreError>)
        ensures
            final(self).follows(*old(self), Event::Roots(roots@, reply)),
    {
        let ghost given = roots;
        let reply = self.inner.save_roots(roots);
        proof {
            assert(given@ == roots@ && call_ensures(P::save_roots, (&self.inner, given), reply));
            self.log@ = self.log@.push(Event::Roots(given@, reply));
        }
        reply
    }

    pub fn save_header(&mut self, header: &DiskBlockHeader, height: u32) -> (reply: Result<
        (),
        StoreError,
    >)
        ensures
            final(self).follows(*old(self), Event::Header(*header, height, reply)),
    {
        let reply = self.inner.save_header(header, height);
        proof {
            self.log@ = self.log@.push(Event::Header(*header, height, reply));
        }
        reply
    }

    pub fn save_height(&mut self, height: &BestChain) -> (reply: Result<(), StoreError>)
        ensures
            final(self).follows(*old(self), Event::Height(height@, reply)),
    {
        let reply = self.inner.save_height(height);
        proof {
            self.log@ = self.log@.push(Event::Height(height@, reply));
        }
        reply
    }

    pub fn flush(&mut self) -> (reply: Result<(), StoreError>)
        ensures
            final(self).follows(*old(self), Event::Flush(reply)),
    {
        let reply = self.inner.flush();
        proof {
            self.log@ = self.log@.push(Event::Flush(reply));
        }
        reply
    }

    pub fn get_header(&self, block_hash: &BlockHash) -> (reply: Result<
        Option<DiskBlockHeader>,
        StoreError,
    >)
        ensures
            call_ensures(P::get_header, (&self.store(), block_hash), reply),
    {
        self.inner.get_header(block_hash)
    }

    pub fn get_block_hash(&self, height: u32) -> (reply: Result<Option<BlockHash>, StoreError>)
        ensures
            call_ensures(P::get_block_hash, (&self.store(), height), reply),
    {
        self.inner.get_block_hash(height)
    }
}

} // verus!
