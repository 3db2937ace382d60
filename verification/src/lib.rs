//! The decision logic of a desktop mail client: where its window may be put
//! back, which mail counts as unread, how a mailbox is reconciled after its
//! identifiers change, how accounts and incoming links are handled, and how
//! the tray and the main window answer the user.

pub mod account_colors;
pub mod flags;
pub mod mailto;
pub mod placeholders;
pub mod reconcile;
pub mod messages;
pub mod migrations;
pub mod model;
pub mod shell;
pub mod startup;
pub mod text;
pub mod threads;
pub mod unread;
pub mod window_state;
