//! The stored mail records the store's decisions work on.

use vstd::prelude::*;

verus! {

/// A mail address with its display name, as a recipient list holds it.
pub struct EmailAddress {
    pub name: Option<String>,
    pub address: String,
}

/// A stored message.
pub struct Message {
    pub id: String,
    pub account_id: String,
    /// Provider-side identifier (IMAP uid, Gmail or Outlook id); empty for
    /// a local draft.
    pub remote_id: String,
    pub message_id_header: Option<String>,
    pub in_reply_to: Option<String>,
    pub references_header: Option<String>,
    pub thread_id: Option<String>,
    pub subject: String,
    pub snippet: String,
    pub from_address: String,
    pub from_name: String,
    pub to_list: Vec<EmailAddress>,
    pub cc_list: Vec<EmailAddress>,
    pub bcc_list: Vec<EmailAddress>,
    pub body_text: String,
    pub body_html_raw: String,
    pub has_attachments: bool,
    pub is_read: bool,
    pub is_starred: bool,
    pub is_draft: bool,
    pub date: i64,
    pub remote_version: Option<String>,
    pub is_deleted: bool,
    pub deleted_at: Option<i64>,
    pub created_at: i64,
    pub updated_at: i64,
}

/// The record of one attachment of a message.
pub struct Attachment {
    pub id: String,
    pub message_id: String,
    pub filename: String,
    pub mime_type: String,
    pub size: i64,
    pub local_path: Option<String>,
    pub content_id: Option<String>,
    pub is_inline: bool,
}

/// One message of a fresh mailbox listing, with its attachments.
pub struct ImapFolderSnapshotMessage {
    pub message: Message,
    pub attachments: Vec<Attachment>,
}

/// What replacing a mailbox leaves to do outside the store: the messages
/// to index again, the messages to drop from search, and the attachment
/// files nothing refers to any more.
pub struct ImapFolderReconcileResult {
    pub indexed_message_ids: Vec<String>,
    pub removed_messages: Vec<Message>,
    pub unreferenced_attachment_paths: Vec<String>,
}

} // verus!
