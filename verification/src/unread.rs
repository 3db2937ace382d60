//! Which mail counts as unread, the SQL that lists it, and the statements
//! built for flag updates and batch lookups.
//!
//! A mailbox's unread mail is unread, not deleted, and filed in at least one
//! folder that is not drafts, trash or spam; a folder's own unread count is
//! only unread and not deleted. The statements are built here, and their
//! parameters are always bound, never spliced into the text.

use crate::placeholders::{numbered_placeholders, placeholders_spec};
use vstd::prelude::*;

verus! {

/// The predicate selecting a mailbox's unread mail. A message filed in
/// several folders is excluded only when every one of them is junk, and a
/// message that has lost its last folder is not counted, so the number
/// agrees with the sum of the mailbox's folder rows. `m` is the messages
/// alias.
pub const UNREAD_MAIL_PREDICATE: &'static str = "m.is_read = 0\n     AND m.is_deleted = 0\n     AND EXISTS (\n        SELECT 1 FROM message_folders mf_mail\n          JOIN folders f_mail ON f_mail.id = mf_mail.folder_id\n         WHERE mf_mail.message_id = m.id\n           AND (f_mail.role IS NULL OR f_mail.role NOT IN ('trash', 'spam', 'drafts'))\n     )";

/// The predicate selecting what one folder's unread badge counts: unread
/// and not deleted, nothing more.
pub const FOLDER_UNREAD_PREDICATE: &'static str = "m.is_read = 0 AND m.is_deleted = 0";

/// The text of the unread-reference query before its `WHERE` condition.
pub const UNREAD_REFS_HEAD: &'static str = "SELECT m.id, m.remote_id,\n                (SELECT f.id FROM message_folders mf\n                   JOIN folders f ON f.id = mf.folder_id\n                  WHERE mf.message_id = m.id\n                  ORDER BY f.sort_order ASC, f.id ASC LIMIT 1),\n                (SELECT f.remote_id FROM message_folders mf\n                   JOIN folders f ON f.id = mf.folder_id\n                  WHERE mf.message_id = m.id\n                  ORDER BY f.sort_order ASC, f.id ASC LIMIT 1)\n         FROM messages m\n         WHERE ";

/// The text of the unread-reference query after its `WHERE` condition.
pub const UNREAD_REFS_TAIL: &'static str = "\n         ORDER BY m.date DESC, m.id ASC";

/// The account scope that opens both unread-reference conditions.
pub const ACCOUNT_SCOPE: &'static str = "m.account_id = ?1 AND ";

/// The text of the folder scope before its list of placeholders.
pub const FOLDER_SCOPE_HEAD: &'static str = "\n             AND EXISTS (\n                SELECT 1 FROM message_folders mf_scope\n                 WHERE mf_scope.message_id = m.id\n                   AND mf_scope.folder_id IN (";

/// The text of the folder scope after its list of placeholders.
pub const FOLDER_SCOPE_TAIL: &'static str = ")\n             )";

/// One unread message of an account, resolved far enough to write its
/// read flag back to the provider.
#[derive(Debug, Clone, PartialEq, Eq)]
pub struct UnreadMessageRef {
    pub message_id: String,
    /// Provider-side identifier of the message (IMAP uid, Gmail or Outlook
    /// id).
    pub remote_id: String,
    pub folder_id: Option<String>,
    pub folder_remote_id: Option<String>,
}

/// The query behind every "list unread mail as flag targets" request, for
/// the given condition. Both folder columns come from the same ordered
/// subquery, so a flag write always targets the mailbox whose uid it
/// carries.
pub fn unread_refs_sql(where_clause: &str) -> (r: String)
    ensures
        r@ == UNREAD_REFS_HEAD@ + where_clause@ + UNREAD_REFS_TAIL@,
{
    let mut sql = String::from_str(UNREAD_REFS_HEAD);
    sql.append(where_clause);
    sql.append(UNREAD_REFS_TAIL);
    sql
}


/// The query listing every unread mail of one account, the account id
/// bound as `?1`.
pub fn account_unread_refs_sql() -> (r: String)
    ensures
        r@ == UNREAD_REFS_HEAD@ + (ACCOUNT_SCOPE@ + UNREAD_MAIL_PREDICATE@) + UNREAD_REFS_TAIL@,
{
    let mut condition = String::from_str(ACCOUNT_SCOPE);
    condition.append(UNREAD_MAIL_PREDICATE);
    unread_refs_sql(condition.as_str())
}

/// The condition for one account's unread mail inside the given number of
/// folders: the account id bound as `?1`, the folder ids as `?2` on.
pub open spec fn folder_scope_spec(folder_count: nat) -> Seq<char> {
    ACCOUNT_SCOPE@ + FOLDER_UNREAD_PREDICATE@ + FOLDER_SCOPE_HEAD@ + placeholders_spec(2, folder_count, seq![',', ' '])
        + FOLDER_SCOPE_TAIL@
}

/// The query listing one account's unread mail inside `folder_count`
/// folders, or `None` when there are no folders: no folder matches
/// nothing, and falling back to the whole mailbox would be the one wrong
/// answer. A message filed in several of the folders is listed once.
pub fn folder_unread_refs_sql(folder_count: u64) -> (r: Option<String>)
    requires
        folder_count + 2 <= u64::MAX,
    ensures
        folder_count == 0 ==> r is None,
        folder_count > 0 ==> (r matches Some(sql) && sql@ == UNREAD_REFS_HEAD@ + folder_scope_spec(folder_count as nat)
            + UNREAD_REFS_TAIL@),
{
    if folder_count == 0 {
        return None;
    }
    proof {
        reveal_strlit(", ");
    }
    let separator = ", ";
    assert(separator@ =~= seq![',', ' ']);
    let placeholders = numbered_placeholders(2, folder_count, separator);
    let mut condition = String::from_str(ACCOUNT_SCOPE);
    condition.append(FOLDER_UNREAD_PREDICATE);
    condition.append(FOLDER_SCOPE_HEAD);
    condition.append(placeholders.as_str());
    condition.append(FOLDER_SCOPE_TAIL);
    assert(condition@ =~= folder_scope_spec(folder_count as nat));
    Some(unread_refs_sql(condition.as_str()))
}

} // verus!
