//! What those who listen to the chain are told.

use vstd::prelude::*;

use crate::primitives::{Block, BlockView};

verus! {

/// Something that those who listen to the chain are told.
#[derive(Debug)]
pub enum Notification {
    /// A valid block is connected at a height.
    NewBlock(Block, u32),
}

pub enum NotificationView {
    NewBlock(BlockView, u32),
}

impl View for Notification {
    type V = NotificationView;

    open spec fn view(&self) -> NotificationView {
        match *self {
            Notification::NewBlock(block, height) => NotificationView::NewBlock(block@, height),
        }
    }
}

/// What each notification says.
pub open spec fn notification_views(notifications: Seq<Notification>) -> Seq<NotificationView> {
    notifications.map_values(|notification: Notification| notification@)
}

} // verus!
