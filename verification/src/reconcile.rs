//! Replacing one IMAP mailbox after its UIDVALIDITY changed.
//!
//! Every UID of the mailbox is void, so the stored messages of the folder
//! are released and the mailbox is stored afresh. A fresh message keeps the
//! local identity of a stored one (its id, read and starred flags and
//! creation time, and with the id every user-owned relation) only when that
//! match cannot be wrong: both carry the same non-empty Message-ID, no
//! other stored message of the folder and no other fresh message carries
//! it, and the stored one lives in this folder alone. Missing or ambiguous
//! Message-IDs never inherit local state.
//!
//! The transaction itself is run by the caller; these functions make its
//! decisions.

use crate::model::{Attachment, ImapFolderReconcileResult, ImapFolderSnapshotMessage, Message};
use vstd::prelude::*;

verus! {

/// A message stored in the folder before the change, as far as the
/// reconciliation reads it.
pub struct StoredFolderMessage {
    pub id: String,
    pub message_id_header: Option<String>,
    pub is_read: bool,
    pub is_starred: bool,
    pub created_at: i64,
    /// How many folders the message is filed in, this one included.
    pub folder_count: i64,
}

/// The local state a fresh message takes over from a stored one.
pub struct InheritedIdentity {
    pub id: String,
    pub is_read: bool,
    pub is_starred: bool,
    pub created_at: i64,
}

/// The view of an inherited identity.
pub open spec fn identity_view(i: InheritedIdentity) -> (Seq<char>, bool, bool, i64) {
    (i.id@, i.is_read, i.is_starred, i.created_at)
}

/// The identity a stored message hands on.
pub open spec fn handed_on(m: StoredFolderMessage) -> (Seq<char>, bool, bool, i64) {
    (m.id@, m.is_read, m.is_starred, m.created_at)
}

/// A Message-ID that can identify a message: present and not empty.
pub open spec fn usable_header(h: Option<String>) -> Option<Seq<char>> {
    match h {
        Some(s) => if s@.len() > 0 { Some(s@) } else { None },
        None => None,
    }
}

/// Fresh message `i` takes over the identity of stored message `j`: they
/// share a usable Message-ID that no other stored and no other fresh
/// message carries, and the stored one is filed in this folder alone.
pub open spec fn inherits(old: Seq<StoredFolderMessage>, fresh: Seq<Option<String>>, i: int, j: int) -> bool {
    let h = usable_header(fresh[i]);
    &&& 0 <= i < fresh.len()
    &&& 0 <= j < old.len()
    &&& h is Some
    &&& usable_header(old[j].message_id_header) == h
    &&& forall|k: int| 0 <= k < old.len() && k != j ==> usable_header(#[trigger] old[k].message_id_header) != h
    &&& forall|k: int| 0 <= k < fresh.len() && k != i ==> usable_header(#[trigger] fresh[k]) != h
    &&& old[j].folder_count == 1
}

/// Whether a Message-ID field holds the usable Message-ID `h`.
fn header_is(field: &Option<String>, h: &String) -> (r: bool)
    requires
        h@.len() > 0,
    ensures
        r == (usable_header(*field) == Some(h@)),
{
    match field {
        Some(s) => *s == *h,
        None => false,
    }
}

/// The only stored message carrying the usable Message-ID `h`, if exactly
/// one does.
fn sole_stored_with(old: &Vec<StoredFolderMessage>, h: &String) -> (r: Option<usize>)
    requires
        h@.len() > 0,
    ensures
        r matches Some(j) ==> j < old@.len() && usable_header(old@[j as int].message_id_header) == Some(h@) && (forall|k: int|
            0 <= k < old@.len() && k != j ==> usable_header(#[trigger] old@[k].message_id_header) != Some(h@)),
        r is None ==> forall|j: int| 0 <= j < old@.len() && usable_header(#[trigger] old@[j].message_id_header) == Some(h@)
            ==> exists|k: int| 0 <= k < old@.len() && k != j && usable_header(#[trigger] old@[k].message_id_header) == Some(h@),
{
    let mut found: Option<usize> = None;
    let mut duplicated = false;
    let mut i: usize = 0;
    while i < old.len()
        invariant
            0 <= i <= old@.len(),
            h@.len() > 0,
            found is None ==> !duplicated,
            found is None ==> forall|k: int| 0 <= k < i ==> usable_header(#[trigger] old@[k].message_id_header) != Some(h@),
            found matches Some(j) ==> j < i && usable_header(old@[j as int].message_id_header) == Some(h@),
            found matches Some(j) ==> (!duplicated <==> forall|k: int| 0 <= k < i && k != j ==> usable_header(
                #[trigger] old@[k].message_id_header) != Some(h@)),
        decreases old@.len() - i,
    {
        if header_is(&old[i].message_id_header, h) {
            match found {
                None => {
                    found = Some(i);
                },
                Some(j) => {
                    duplicated = true;
                    assert(usable_header(old@[i as int].message_id_header) == Some(h@));
                },
            }
        }
        i = i + 1;
    }
    match found {
        None => None,
        Some(j) => {
            if duplicated {
                assert forall|j2: int| 0 <= j2 < old@.len() && usable_header(#[trigger] old@[j2].message_id_header)
                    == Some(h@) implies exists|k: int| 0 <= k < old@.len() && k != j2 && usable_header(
                    #[trigger] old@[k].message_id_header) == Some(h@) by {
                    if j2 != j as int {
                        assert(usable_header(old@[j as int].message_id_header) == Some(h@));
                    } else {
                        let k = choose|k: int| 0 <= k < i && k != j && usable_header(#[trigger] old@[k].message_id_header) == Some(h@);
                        assert(usable_header(old@[k].message_id_header) == Some(h@));
                    }
                }
                None
            } else {
                Some(j)
            }
        },
    }
}

/// Whether no fresh message other than the `i`-th carries the usable
/// Message-ID `h`.
fn unique_among_fresh(fresh: &Vec<Option<String>>, i: usize, h: &String) -> (r: bool)
    requires
        h@.len() > 0,
    ensures
        r == forall|k: int| 0 <= k < fresh@.len() && k != i ==> usable_header(#[trigger] fresh@[k]) != Some(h@),
{
    let mut k: usize = 0;
    while k < fresh.len()
        invariant
            0 <= k <= fresh@.len(),
            h@.len() > 0,
            forall|m: int| 0 <= m < k && m != i ==> usable_header(#[trigger] fresh@[m]) != Some(h@),
        decreases fresh@.len() - k,
    {
        if k != i && header_is(&fresh[k], h) {
            assert(usable_header(fresh@[k as int]) == Some(h@));
            return false;
        }
        k = k + 1;
    }
    true
}

/// Which stored identity each fresh message takes over, given the stored
/// messages of the folder and the Message-IDs of the fresh ones: for each
/// fresh message, the identity it inherits, or `None` when it starts as a
/// new message.
pub fn match_stable_identities(old: &Vec<StoredFolderMessage>, fresh: &Vec<Option<String>>) -> (plan: Vec<Option<InheritedIdentity>>)
    ensures
        plan@.len() == fresh@.len(),
        forall|i: int| 0 <= i < fresh@.len() ==> (#[trigger] plan@[i] is Some <==> exists|j: int| inherits(old@, fresh@, i, j)),
        forall|i: int, j: int| inherits(old@, fresh@, i, j) ==> (#[trigger] plan@[i] matches Some(id) && identity_view(id)
            == handed_on(#[trigger] old@[j])),
{
    let mut plan: Vec<Option<InheritedIdentity>> = Vec::new();
    let mut i: usize = 0;
    while i < fresh.len()
        invariant
            0 <= i <= fresh@.len(),
            plan@.len() == i,
            forall|m: int| 0 <= m < i ==> (#[trigger] plan@[m] is Some <==> exists|j: int| inherits(old@, fresh@, m, j)),
            forall|m: int, j: int| 0 <= m < i && inherits(old@, fresh@, m, j) ==> (#[trigger] plan@[m] matches Some(id)
                && identity_view(id) == handed_on(#[trigger] old@[j])),
        decreases fresh@.len() - i,
    {
        let mut entry: Option<InheritedIdentity> = None;
        match &fresh[i] {
            Some(h) => {
                if !h.as_str().is_empty() {
                    match sole_stored_with(old, h) {
                        Some(j) => {
                            if unique_among_fresh(fresh, i, h) && old[j].folder_count == 1 {
                                entry = Some(InheritedIdentity {
                                    id: old[j].id.clone(),
                                    is_read: old[j].is_read,
                                    is_starred: old[j].is_starred,
                                    created_at: old[j].created_at,
                                });
                                assert(inherits(old@, fresh@, i as int, j as int));
                                assert forall|j2: int| inherits(old@, fresh@, i as int, j2) implies j2 == j as int by {
                                    if j2 != j as int {
                                        assert(usable_header(old@[j as int].message_id_header) == Some(h@));
                                    }
                                }
                            } else {
                                assert forall|j2: int| !inherits(old@, fresh@, i as int, j2) by {
                                    if inherits(old@, fresh@, i as int, j2) && j2 != j as int {
                                        assert(usable_header(old@[j as int].message_id_header) == Some(h@));
                                    }
                                }
                            }
                        },
                        None => {
                            assert forall|j2: int| !inherits(old@, fresh@, i as int, j2) by {
                                if inherits(old@, fresh@, i as int, j2) {
                                    let k = choose|k: int| 0 <= k < old@.len() && k != j2 && usable_header(
                                        #[trigger] old@[k].message_id_header) == Some(h@);
                                    assert(usable_header(old@[k].message_id_header) == Some(h@));
                                }
                            }
                        },
                    }
                }
            },
            None => {},
        }
        plan.push(entry);
        i = i + 1;
    }
    plan
}


/// Whether the stored message with id `id` is taken over by some fresh one.
pub open spec fn is_taken_over(plan: Seq<Option<InheritedIdentity>>, id: Seq<char>) -> bool {
    exists|i: int| 0 <= i < plan.len() && (#[trigger] plan[i] matches Some(x) && x.id@ == id)
}

/// For each stored message, whether a fresh message took over its identity.
pub fn taken_over(old: &Vec<StoredFolderMessage>, plan: &Vec<Option<InheritedIdentity>>) -> (matched: Vec<bool>)
    ensures
        matched@.len() == old@.len(),
        forall|k: int| 0 <= k < old@.len() ==> #[trigger] matched@[k] == is_taken_over(plan@, old@[k].id@),
{
    let mut matched: Vec<bool> = Vec::new();
    let mut k: usize = 0;
    while k < old.len()
        invariant
            0 <= k <= old@.len(),
            matched@.len() == k,
            forall|m: int| 0 <= m < k ==> #[trigger] matched@[m] == is_taken_over(plan@, old@[m].id@),
        decreases old@.len() - k,
    {
        let mut hit = false;
        let mut i: usize = 0;
        while i < plan.len()
            invariant
                0 <= i <= plan@.len(),
                k < old@.len(),
                hit == exists|m: int| 0 <= m < i && (#[trigger] plan@[m] matches Some(x) && x.id@ == old@[k as int].id@),
            decreases plan@.len() - i,
        {
            match &plan[i] {
                Some(x) => {
                    if x.id == old[k].id {
                        hit = true;
                    }
                },
                None => {},
            }
            i = i + 1;
        }
        matched.push(hit);
        k = k + 1;
    }
    matched
}

/// What becomes of a stored message once its place in the folder is
/// released.
#[derive(Debug, Clone, Copy, PartialEq, Eq, Structural)]
pub enum ReleasedFate {
    /// A fresh message took over its identity; it is stored again as that.
    TakenOver,
    /// It is still filed in another folder: it stays, and is re-indexed.
    Reindexed,
    /// It is filed nowhere any more: it is deleted and dropped from search.
    Removed,
}

/// The fate of a stored message, given whether it was taken over and how
/// many folders it is still filed in once this one is released.
pub open spec fn fate_spec(taken: bool, remaining: i64) -> ReleasedFate {
    if taken {
        ReleasedFate::TakenOver
    } else if remaining > 0 {
        ReleasedFate::Reindexed
    } else {
        ReleasedFate::Removed
    }
}

/// What becomes of a stored message once its place in the folder is
/// released: it is taken over exactly when a fresh message took its
/// identity; otherwise it stays and is indexed again exactly when some
/// other folder still holds it, and it is deleted exactly when none does.
/// A message still filed elsewhere is never deleted.
pub proof fn lemma_released_fate_law(taken: bool, remaining: i64)
    ensures
        (fate_spec(taken, remaining) == ReleasedFate::TakenOver) <==> taken,
        (fate_spec(taken, remaining) == ReleasedFate::Reindexed) <==> (!taken && remaining > 0),
        (fate_spec(taken, remaining) == ReleasedFate::Removed) <==> (!taken && remaining <= 0),
{
}

/// The fate of every stored message of the folder.
pub fn released_fates(taken: &Vec<bool>, remaining_folder_counts: &Vec<i64>) -> (fates: Vec<ReleasedFate>)
    requires
        taken@.len() == remaining_folder_counts@.len(),
    ensures
        fates@.len() == taken@.len(),
        forall|k: int| 0 <= k < taken@.len() ==> #[trigger] fates@[k] == fate_spec(taken@[k], remaining_folder_counts@[k]),
        forall|k: int| 0 <= k < taken@.len() ==> (#[trigger] fates@[k] == ReleasedFate::TakenOver <==> taken@[k]),
        forall|k: int| 0 <= k < taken@.len() ==> (#[trigger] fates@[k] == ReleasedFate::Reindexed <==> (!taken@[k]
            && remaining_folder_counts@[k] > 0)),
        forall|k: int| 0 <= k < taken@.len() ==> (#[trigger] fates@[k] == ReleasedFate::Removed <==> (!taken@[k]
            && remaining_folder_counts@[k] <= 0)),
{
    let mut fates: Vec<ReleasedFate> = Vec::new();
    let mut k: usize = 0;
    while k < taken.len()
        invariant
            taken@.len() == remaining_folder_counts@.len(),
            0 <= k <= taken@.len(),
            fates@.len() == k,
            forall|m: int| 0 <= m < k ==> #[trigger] fates@[m] == fate_spec(taken@[m], remaining_folder_counts@[m]),
        decreases taken@.len() - k,
    {
        let fate = if taken[k] {
            ReleasedFate::TakenOver
        } else if remaining_folder_counts[k] > 0 {
            ReleasedFate::Reindexed
        } else {
            ReleasedFate::Removed
        };
        fates.push(fate);
        k = k + 1;
    }
    fates
}

/// The entries with the given fate, in order.
pub open spec fn ids_with_fate<A>(ids: Seq<A>, fates: Seq<ReleasedFate>, fate: ReleasedFate) -> Seq<A>
    decreases ids.len(),
{
    if ids.len() == 0 || fates.len() == 0 {
        Seq::empty()
    } else {
        let init = ids_with_fate(ids.drop_last(), fates.drop_last(), fate);
        if fates.last() == fate { init.push(ids.last()) } else { init }
    }
}

/// The entries with a given fate are exactly the entries whose fate it
/// is, each as often as it appears with that fate, in their order: an
/// entry is listed iff some position holds it with that fate.
pub proof fn lemma_ids_with_fate_members<A>(ids: Seq<A>, fates: Seq<ReleasedFate>, fate: ReleasedFate, x: A)
    requires
        ids.len() == fates.len(),
    ensures
        ids_with_fate(ids, fates, fate).contains(x) <==> exists|k: int|
            0 <= k < ids.len() && #[trigger] ids[k] == x && fates[k] == fate,
    decreases ids.len(),
{
    if ids.len() > 0 {
        let init_ids = ids.drop_last();
        let init_fates = fates.drop_last();
        lemma_ids_with_fate_members(init_ids, init_fates, fate, x);
        let init = ids_with_fate(init_ids, init_fates, fate);
        let r = ids_with_fate(ids, fates, fate);
        let n = ids.len() - 1;
        if fates.last() == fate {
            assert(r == init.push(ids.last()));
            if init.contains(x) {
                let m = choose|m: int| 0 <= m < init.len() && init[m] == x;
                assert(r[m] == x);
            }
            if r.contains(x) && !init.contains(x) {
                let m = choose|m: int| 0 <= m < r.len() && r[m] == x;
                if m < init.len() {
                    assert(init[m] == x);
                }
                assert(ids[n] == x && fates[n] == fate);
            }
        } else {
            assert(r == init);
        }
        if exists|k: int| 0 <= k < ids.len() && #[trigger] ids[k] == x && fates[k] == fate {
            let k = choose|k: int| 0 <= k < ids.len() && #[trigger] ids[k] == x && fates[k] == fate;
            if k < n {
                assert(init_ids[k] == x && init_fates[k] == fate);
            } else {
                assert(r.last() == x);
                assert(r.contains(x)) by {
                    assert(r[r.len() - 1] == x);
                }
            }
        }
        if exists|k: int| 0 <= k < init_ids.len() && #[trigger] init_ids[k] == x && init_fates[k] == fate {
            let k = choose|k: int| 0 <= k < init_ids.len() && #[trigger] init_ids[k] == x && init_fates[k] == fate;
            assert(ids[k] == x && fates[k] == fate);
        }
    }
}

/// The messages search must index again once the mailbox is replaced: the
/// stored messages that stay because another folder still holds them, in
/// order, then every fresh message, in order.
pub fn indexed_message_ids(old_ids: &Vec<String>, fates: &Vec<ReleasedFate>, fresh_ids: &Vec<String>) -> (ids: Vec<String>)
    requires
        old_ids@.len() == fates@.len(),
    ensures
        ids.deep_view() == ids_with_fate(old_ids.deep_view(), fates@, ReleasedFate::Reindexed) + fresh_ids.deep_view(),
{
    let mut ids = ids_of_fate(old_ids, fates, ReleasedFate::Reindexed);
    let ghost head = ids.deep_view();
    let mut i: usize = 0;
    while i < fresh_ids.len()
        invariant
            0 <= i <= fresh_ids@.len(),
            ids.deep_view() == head + fresh_ids.deep_view().take(i as int),
        decreases fresh_ids@.len() - i,
    {
        let ghost before = ids.deep_view();
        ids.push(fresh_ids[i].clone());
        assert(ids.deep_view() =~= before.push(fresh_ids@[i as int]@));
        assert(fresh_ids.deep_view().take(i as int + 1) =~= fresh_ids.deep_view().take(i as int).push(fresh_ids@[i as int]@));
        assert(ids.deep_view() =~= head + fresh_ids.deep_view().take(i as int + 1));
        i = i + 1;
    }
    assert(fresh_ids.deep_view().take(fresh_ids@.len() as int) =~= fresh_ids.deep_view());
    ids
}

/// The ids of the stored messages with the given fate, in order.
pub fn ids_of_fate(old_ids: &Vec<String>, fates: &Vec<ReleasedFate>, fate: ReleasedFate) -> (ids: Vec<String>)
    requires
        old_ids@.len() == fates@.len(),
    ensures
        ids.deep_view() == ids_with_fate(old_ids.deep_view(), fates@, fate),
{
    let mut ids: Vec<String> = Vec::new();
    let mut k: usize = 0;
    while k < old_ids.len()
        invariant
            old_ids@.len() == fates@.len(),
            0 <= k <= old_ids@.len(),
            ids.deep_view() == ids_with_fate(old_ids.deep_view().take(k as int), fates@.take(k as int), fate),
        decreases old_ids@.len() - k,
    {
        let ghost before = ids.deep_view();
        assert(old_ids.deep_view().take(k as int + 1).drop_last() =~= old_ids.deep_view().take(k as int));
        assert(fates@.take(k as int + 1).drop_last() =~= fates@.take(k as int));
        if fates[k] == fate {
            ids.push(old_ids[k].clone());
            assert(ids.deep_view() =~= before.push(old_ids@[k as int]@));
        }
        k = k + 1;
    }
    assert(old_ids.deep_view().take(old_ids@.len() as int) =~= old_ids.deep_view());
    assert(fates@.take(fates@.len() as int) =~= fates@);
    ids
}

/// The attachment files nothing refers to any more once the mailbox is
/// replaced: the files of the old generation that no attachment row still
/// names, in order.
pub fn unreferenced_attachment_paths(paths: &Vec<String>, still_referenced: &Vec<bool>) -> (r: Vec<String>)
    requires
        paths@.len() == still_referenced@.len(),
    ensures
        r.deep_view() == ids_with_fate(
            paths.deep_view(),
            still_referenced@.map_values(|b: bool| if b { ReleasedFate::Reindexed } else { ReleasedFate::Removed }),
            ReleasedFate::Removed,
        ),
{
    let mut fates: Vec<ReleasedFate> = Vec::new();
    let mut k: usize = 0;
    while k < still_referenced.len()
        invariant
            0 <= k <= still_referenced@.len(),
            fates@ == still_referenced@.take(k as int).map_values(
                |b: bool| if b { ReleasedFate::Reindexed } else { ReleasedFate::Removed },
            ),
        decreases still_referenced@.len() - k,
    {
        fates.push(if still_referenced[k] { ReleasedFate::Reindexed } else { ReleasedFate::Removed });
        assert(fates@ =~= still_referenced@.take(k as int + 1).map_values(
            |b: bool| if b { ReleasedFate::Reindexed } else { ReleasedFate::Removed },
        ));
        k = k + 1;
    }
    assert(still_referenced@.take(still_referenced@.len() as int) =~= still_referenced@);
    ids_of_fate(paths, &fates, ReleasedFate::Removed)
}

/// No two fresh messages take over the same stored identity.
pub proof fn lemma_identity_taken_over_once(
    old: Seq<StoredFolderMessage>,
    fresh: Seq<Option<String>>,
    i1: int,
    i2: int,
    j: int,
)
    requires
        inherits(old, fresh, i1, j),
        inherits(old, fresh, i2, j),
    ensures
        i1 == i2,
{
}

/// A fresh message without a usable Message-ID never inherits local state.
pub proof fn lemma_missing_message_id_never_inherits(old: Seq<StoredFolderMessage>, fresh: Seq<Option<String>>, i: int, j: int)
    requires
        usable_header(fresh[i]) is None,
    ensures
        !inherits(old, fresh, i, j),
{
}

/// A Message-ID that two stored messages share, or that two fresh messages
/// share, never carries local state over.
pub proof fn lemma_ambiguous_message_id_never_inherits(
    old: Seq<StoredFolderMessage>,
    fresh: Seq<Option<String>>,
    i: int,
    j: int,
)
    requires
        0 <= i < fresh.len(),
        (exists|a: int, b: int| 0 <= a < b < old.len() && usable_header(#[trigger] old[a].message_id_header)
            == usable_header(fresh[i]) && usable_header(#[trigger] old[b].message_id_header) == usable_header(fresh[i]))
            || (exists|a: int| 0 <= a < fresh.len() && a != i && #[trigger] usable_header(fresh[a]) == usable_header(fresh[i])),
    ensures
        !inherits(old, fresh, i, j),
{
    if inherits(old, fresh, i, j) {
        if exists|a: int, b: int| 0 <= a < b < old.len() && usable_header(#[trigger] old[a].message_id_header)
            == usable_header(fresh[i]) && usable_header(#[trigger] old[b].message_id_header) == usable_header(fresh[i]) {
            let (a, b) = choose|a: int, b: int| 0 <= a < b < old.len() && usable_header(#[trigger] old[a].message_id_header)
                == usable_header(fresh[i]) && usable_header(#[trigger] old[b].message_id_header) == usable_header(fresh[i]);
            if a != j {
                assert(usable_header(old[a].message_id_header) == usable_header(fresh[i]));
            } else {
                assert(usable_header(old[b].message_id_header) == usable_header(fresh[i]));
            }
        } else {
            let a = choose|a: int| 0 <= a < fresh.len() && a != i && #[trigger] usable_header(fresh[a]) == usable_header(fresh[i]);
            assert(usable_header(fresh[a]) == usable_header(fresh[i]));
        }
    }
}


/// The identity a stored message of the folder offers, given how many
/// folders hold it.
pub fn stored_identity(m: &Message, folder_count: i64) -> (r: StoredFolderMessage)
    ensures
        r.id == m.id,
        r.message_id_header == m.message_id_header,
        r.is_read == m.is_read,
        r.is_starred == m.is_starred,
        r.created_at == m.created_at,
        r.folder_count == folder_count,
{
    StoredFolderMessage {
        id: m.id.clone(),
        message_id_header: clone_optional(&m.message_id_header),
        is_read: m.is_read,
        is_starred: m.is_starred,
        created_at: m.created_at,
        folder_count,
    }
}

/// A copy of an optional string.
fn clone_optional(o: &Option<String>) -> (r: Option<String>)
    ensures
        r == *o,
{
    match o {
        Some(s) => Some(s.clone()),
        None => None,
    }
}

/// A message that takes over a stored identity: the stored id, read and
/// starred flags and creation time, everything else as fetched.
pub open spec fn adopted(m: Message, x: InheritedIdentity) -> Message {
    Message { id: x.id, is_read: x.is_read, is_starred: x.is_starred, created_at: x.created_at, ..m }
}

/// An attachment record moved to the message with id `id`.
pub open spec fn moved_attachment(a: Attachment, id: String) -> Attachment {
    Attachment { message_id: id, ..a }
}

/// The fresh messages of the mailbox with the stored identities they take
/// over applied: such a message, and each of its attachment records, carry
/// the stored id; every other message is left as fetched.
pub fn adopt_stable_identities(old: &Vec<StoredFolderMessage>, fresh: Vec<ImapFolderSnapshotMessage>) -> (r: Vec<ImapFolderSnapshotMessage>)
    ensures
        r@.len() == fresh@.len(),
        forall|i: int| 0 <= i < fresh@.len() ==> {
            let headers = fresh@.map_values(|e: ImapFolderSnapshotMessage| e.message.message_id_header);
            if exists|j: int| inherits(old@, headers, i, j) {
                forall|j: int| inherits(old@, headers, i, j) ==> {
                    &&& handed_on(#[trigger] old@[j]) == (r@[i].message.id@, r@[i].message.is_read, r@[i].message.is_starred, r@[i].message.created_at)
                    &&& exists|x: InheritedIdentity| r@[i].message == adopted(fresh@[i].message, x)
                        && r@[i].attachments@ == fresh@[i].attachments@.map_values(|a: Attachment| moved_attachment(a, x.id))
                }
            } else {
                #[trigger] r@[i] == fresh@[i]
            }
        },
{
    let ghost headers = fresh@.map_values(|e: ImapFolderSnapshotMessage| e.message.message_id_header);
    let mut header_list: Vec<Option<String>> = Vec::new();
    let mut k: usize = 0;
    while k < fresh.len()
        invariant
            headers == fresh@.map_values(|e: ImapFolderSnapshotMessage| e.message.message_id_header),
            0 <= k <= fresh@.len(),
            header_list@ == headers.take(k as int),
        decreases fresh@.len() - k,
    {
        header_list.push(clone_optional(&fresh[k].message.message_id_header));
        assert(header_list@ =~= headers.take(k as int + 1));
        k = k + 1;
    }
    assert(header_list@ =~= headers);
    let plan = match_stable_identities(old, &header_list);
    let ghost given = fresh@;
    let mut rest = fresh;
    let mut r: Vec<ImapFolderSnapshotMessage> = Vec::new();
    let mut i: usize = 0;
    while i < plan.len()
        invariant
            plan@.len() == given.len(),
            headers == given.map_values(|e: ImapFolderSnapshotMessage| e.message.message_id_header),
            header_list@ == headers,
            forall|m: int| 0 <= m < given.len() ==> (#[trigger] plan@[m] is Some <==> exists|j: int| inherits(old@, headers, m, j)),
            forall|m: int, j: int| inherits(old@, headers, m, j) ==> (#[trigger] plan@[m] matches Some(id) && identity_view(id)
                == handed_on(#[trigger] old@[j])),
            0 <= i <= given.len(),
            r@.len() == i,
            rest@ == given.subrange(i as int, given.len() as int),
            forall|m: int| 0 <= m < i ==> {
                if exists|j: int| inherits(old@, headers, m, j) {
                    forall|j: int| inherits(old@, headers, m, j) ==> {
                        &&& handed_on(#[trigger] old@[j]) == (r@[m].message.id@, r@[m].message.is_read, r@[m].message.is_starred, r@[m].message.created_at)
                        &&& exists|x: InheritedIdentity| r@[m].message == adopted(given[m].message, x)
                            && r@[m].attachments@ == given[m].attachments@.map_values(|a: Attachment| moved_attachment(a, x.id))
                    }
                } else {
                    #[trigger] r@[m] == given[m]
                }
            },
        decreases given.len() - i,
    {
        let entry = rest.remove(0);
        assert(entry == given[i as int]);
        let ghost r0 = r@;
        match &plan[i] {
            None => {
                r.push(entry);
                assert(r@ =~= r0.push(given[i as int]));
            },
            Some(x) => {
                let ImapFolderSnapshotMessage { message, attachments } = entry;
                let mut moved: Vec<Attachment> = Vec::new();
                let mut pending = attachments;
                let ghost all = pending@;
                while pending.len() > 0
                    invariant
                        all == given[i as int].attachments@,
                        moved@.len() + pending@.len() == all.len(),
                        pending@ == all.subrange(moved@.len() as int, all.len() as int),
                        moved@ == all.take(moved@.len() as int).map_values(|a: Attachment| moved_attachment(a, x.id)),
                    decreases pending@.len(),
                {
                    let a = pending.remove(0);
                    let ghost m0 = moved@;
                    let b = Attachment { message_id: x.id.clone(), ..a };
                    moved.push(b);
                    assert(all.take(moved@.len() as int) =~= all.take(m0.len() as int).push(a));
                    assert(moved@ =~= all.take(moved@.len() as int).map_values(|a: Attachment| moved_attachment(a, x.id)));
                }
                assert(all.take(moved@.len() as int) =~= all);
                let adopted_message = Message {
                    id: x.id.clone(),
                    is_read: x.is_read,
                    is_starred: x.is_starred,
                    created_at: x.created_at,
                    ..message
                };
                assert(adopted_message == adopted(given[i as int].message, *x));
                r.push(ImapFolderSnapshotMessage { message: adopted_message, attachments: moved });
                assert(r@[i as int].message == adopted(given[i as int].message, *x));
                assert forall|j: int| inherits(old@, headers, i as int, j) implies {
                    &&& handed_on(#[trigger] old@[j]) == (r@[i as int].message.id@, r@[i as int].message.is_read, r@[i as int].message.is_starred, r@[i as int].message.created_at)
                    &&& exists|y: InheritedIdentity| r@[i as int].message == adopted(given[i as int].message, y)
                        && r@[i as int].attachments@ == given[i as int].attachments@.map_values(|a: Attachment| moved_attachment(a, y.id))
                } by {
                    assert(identity_view(*x) == handed_on(old@[j]));
                }
            },
        }
        assert(rest@ =~= given.subrange(i as int + 1, given.len() as int));
        assert forall|m: int| 0 <= m < i + 1 implies {
            if exists|j: int| inherits(old@, headers, m, j) {
                forall|j: int| inherits(old@, headers, m, j) ==> {
                    &&& handed_on(#[trigger] old@[j]) == (r@[m].message.id@, r@[m].message.is_read, r@[m].message.is_starred, r@[m].message.created_at)
                    &&& exists|x: InheritedIdentity| r@[m].message == adopted(given[m].message, x)
                        && r@[m].attachments@ == given[m].attachments@.map_values(|a: Attachment| moved_attachment(a, x.id))
                }
            } else {
                #[trigger] r@[m] == given[m]
            }
        } by {
            if m < i {
                assert(r@[m] == r0[m]);
            }
        }
        i = i + 1;
    }
    r
}

/// The outcome of replacing the mailbox: the stored messages that stay
/// because another folder holds them and every fresh message are indexed
/// again; the stored messages filed nowhere any more are removed; and the
/// old attachment files that no record names any more are left to delete.
pub fn reconcile_result(
    old: Vec<Message>,
    fates: &Vec<ReleasedFate>,
    fresh_ids: &Vec<String>,
    old_attachment_paths: &Vec<String>,
    still_referenced: &Vec<bool>,
) -> (r: ImapFolderReconcileResult)
    requires
        old@.len() == fates@.len(),
        old_attachment_paths@.len() == still_referenced@.len(),
    ensures
        r.indexed_message_ids.deep_view() == ids_with_fate(old@.map_values(|m: Message| m.id@), fates@, ReleasedFate::Reindexed)
            + fresh_ids.deep_view(),
        r.removed_messages@ == ids_with_fate(old@, fates@, ReleasedFate::Removed),
        r.unreferenced_attachment_paths.deep_view() == ids_with_fate(
            old_attachment_paths.deep_view(),
            still_referenced@.map_values(|b: bool| if b { ReleasedFate::Reindexed } else { ReleasedFate::Removed }),
            ReleasedFate::Removed,
        ),
{
    let ghost all = old@;
    let mut old_ids: Vec<String> = Vec::new();
    let mut k: usize = 0;
    while k < old.len()
        invariant
            all == old@,
            0 <= k <= all.len(),
            old_ids.deep_view() == all.map_values(|m: Message| m.id@).take(k as int),
        decreases all.len() - k,
    {
        let ghost before = old_ids.deep_view();
        let ghost ids = all.map_values(|m: Message| m.id@);
        let id = old[k].id.clone();
        assert(id@ == ids[k as int]);
        old_ids.push(id);
        assert(old_ids.deep_view() =~= before.push(ids[k as int]));
        assert(ids.take(k as int + 1) =~= ids.take(k as int).push(ids[k as int]));
        assert(old_ids.deep_view() =~= all.map_values(|m: Message| m.id@).take(k as int + 1));
        k = k + 1;
    }
    assert(all.map_values(|m: Message| m.id@).take(all.len() as int) =~= all.map_values(|m: Message| m.id@));
    let indexed = indexed_message_ids(&old_ids, fates, fresh_ids);
    let mut removed: Vec<Message> = Vec::new();
    let mut rest = old;
    let mut k: usize = 0;
    while k < fates.len()
        invariant
            all.len() == fates@.len(),
            0 <= k <= all.len(),
            rest@ == all.subrange(k as int, all.len() as int),
            removed@ == ids_with_fate(all.take(k as int), fates@.take(k as int), ReleasedFate::Removed),
        decreases all.len() - k,
    {
        let m = rest.remove(0);
        assert(all.take(k as int + 1).drop_last() =~= all.take(k as int));
        assert(fates@.take(k as int + 1).drop_last() =~= fates@.take(k as int));
        if fates[k] == ReleasedFate::Removed {
            removed.push(m);
        }
        assert(rest@ =~= all.subrange(k as int + 1, all.len() as int));
        k = k + 1;
    }
    assert(all.take(all.len() as int) =~= all);
    assert(fates@.take(fates@.len() as int) =~= fates@);
    let paths = unreferenced_attachment_paths(old_attachment_paths, still_referenced);
    ImapFolderReconcileResult { indexed_message_ids: indexed, removed_messages: removed, unreferenced_attachment_paths: paths }
}


/// The entries of `xs` at the positions `keep` marks, in order.
pub open spec fn kept_where<A>(xs: Seq<A>, keep: Seq<bool>) -> Seq<A>
    decreases xs.len(),
{
    if xs.len() == 0 || keep.len() == 0 {
        Seq::empty()
    } else {
        let init = kept_where(xs.drop_last(), keep.drop_last());
        if keep.last() { init.push(xs.last()) } else { init }
    }
}

/// Picking the entries with one fate is picking the positions that hold
/// that fate.
pub proof fn lemma_fate_is_a_selection<A>(xs: Seq<A>, fates: Seq<ReleasedFate>, fate: ReleasedFate, keep: Seq<bool>)
    requires
        xs.len() == fates.len(),
        keep.len() == fates.len(),
        forall|k: int| 0 <= k < fates.len() ==> #[trigger] keep[k] == (fates[k] == fate),
    ensures
        ids_with_fate(xs, fates, fate) == kept_where(xs, keep),
    decreases xs.len(),
{
    if xs.len() > 0 {
        let n = xs.len() - 1;
        assert forall|k: int| 0 <= k < n implies #[trigger] keep.drop_last()[k] == (fates.drop_last()[k] == fate) by {
            assert(keep.drop_last()[k] == keep[k]);
            assert(fates.drop_last()[k] == fates[k]);
        }
        lemma_fate_is_a_selection(xs.drop_last(), fates.drop_last(), fate, keep.drop_last());
        assert(keep.last() == keep[n]);
    }
}

/// Whether stored message `k` is removed: no fresh message took it over,
/// and no other folder holds it any more.
pub open spec fn removed_where(taken: Seq<bool>, remaining: Seq<i64>) -> Seq<bool> {
    Seq::new(taken.len(), |k: int| !taken[k] && remaining[k] <= 0)
}

/// Whether stored message `k` is indexed again: no fresh message took it
/// over, and another folder still holds it.
pub open spec fn reindexed_where(taken: Seq<bool>, remaining: Seq<i64>) -> Seq<bool> {
    Seq::new(taken.len(), |k: int| !taken[k] && remaining[k] > 0)
}

/// What replacing a mailbox returns, given for each stored message of the
/// folder whether a fresh message took it over and how many folders still
/// hold it once this one is released, the ids of the fresh messages, and
/// for each old attachment file whether an attachment row still names it:
/// the removed messages are the stored ones not taken over and filed
/// nowhere else; the ids to index again are those of the stored ones not
/// taken over but filed elsewhere, then every fresh id; the files to delete
/// are those no attachment row names.
pub fn reconcile_outcome(
    old: Vec<Message>,
    taken: &Vec<bool>,
    remaining_folder_counts: &Vec<i64>,
    fresh_ids: &Vec<String>,
    old_attachment_paths: &Vec<String>,
    still_referenced: &Vec<bool>,
) -> (r: ImapFolderReconcileResult)
    requires
        old@.len() == taken@.len(),
        taken@.len() == remaining_folder_counts@.len(),
        old_attachment_paths@.len() == still_referenced@.len(),
    ensures
        r.removed_messages@ == kept_where(old@, removed_where(taken@, remaining_folder_counts@)),
        r.indexed_message_ids.deep_view() == kept_where(
            old@.map_values(|m: Message| m.id@),
            reindexed_where(taken@, remaining_folder_counts@),
        ) + fresh_ids.deep_view(),
        r.unreferenced_attachment_paths.deep_view() == kept_where(
            old_attachment_paths.deep_view(),
            still_referenced@.map_values(|b: bool| !b),
        ),
{
    let ghost given = old@;
    let fates = released_fates(taken, remaining_folder_counts);
    proof {
        lemma_fate_is_a_selection(given, fates@, ReleasedFate::Removed, removed_where(taken@, remaining_folder_counts@));
        lemma_fate_is_a_selection(
            given.map_values(|m: Message| m.id@),
            fates@,
            ReleasedFate::Reindexed,
            reindexed_where(taken@, remaining_folder_counts@),
        );
        let ref_fates = still_referenced@.map_values(|b: bool| if b { ReleasedFate::Reindexed } else { ReleasedFate::Removed });
        lemma_fate_is_a_selection(
            old_attachment_paths.deep_view(),
            ref_fates,
            ReleasedFate::Removed,
            still_referenced@.map_values(|b: bool| !b),
        );
    }
    reconcile_result(old, &fates, fresh_ids, old_attachment_paths, still_referenced)
}

} // verus!
