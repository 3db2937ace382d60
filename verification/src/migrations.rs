//! Which schema migrations run, and which version each records; whether
//! the accounts table already admits POP3 accounts; and the positions the
//! accounts are given when they become orderable.
//!
//! Each migration runs in its own transaction and records its own number
//! as it commits, so a crash or a failure between two migrations resumes
//! at the first one that did not commit: a migration that did not complete
//! is never recorded as done.

use vstd::prelude::*;

verus! {

/// The schema version a fully migrated database records.
pub const CURRENT_VERSION: u32 = 20;

/// One migration to run: its number, and the schema version it records
/// when it commits.
#[derive(Debug, Clone, Copy, PartialEq, Eq, Structural)]
pub struct MigrationStep {
    pub version: u32,
    pub stamp: u32,
}

/// The version migration `k` records: its own number. Recording a later
/// one would leave a crash before that later migration recorded as fully
/// migrated.
pub open spec fn stamp_spec(k: int) -> int {
    k
}

/// The migrations a database at `version` still needs, in order: every
/// one numbered above `version`, up to the current one.
pub open spec fn plan_spec(version: int) -> Seq<MigrationStep> {
    let first = if version < 0 { 1 } else { version + 1 };
    Seq::new(
        if first > CURRENT_VERSION { 0 } else { (CURRENT_VERSION - first + 1) as nat },
        |i: int| MigrationStep { version: (first + i) as u32, stamp: stamp_spec(first + i) as u32 },
    )
}

/// The migrations to run on a database that records `version`.
pub fn migration_plan(version: u32) -> (plan: Vec<MigrationStep>)
    ensures
        plan@ == plan_spec(version as int),
{
    let mut plan: Vec<MigrationStep> = Vec::new();
    if version >= CURRENT_VERSION {
        assert(plan@ =~= plan_spec(version as int));
        return plan;
    }
    let first = version + 1;
    let mut k: u32 = first;
    while k <= CURRENT_VERSION
        invariant
            first == version + 1,
            first <= CURRENT_VERSION,
            first <= k <= CURRENT_VERSION + 1,
            plan@ == plan_spec(version as int).take(k - first),
        decreases CURRENT_VERSION + 1 - k,
    {
        plan.push(MigrationStep { version: k, stamp: k });
        assert(plan@ =~= plan_spec(version as int).take(k + 1 - first));
        k = k + 1;
    }
    assert(plan@ =~= plan_spec(version as int));
    plan
}

/// A database that needs migrating ends up recording the current version,
/// and the versions recorded never go backwards on the way.
pub proof fn lemma_migrating_reaches_the_current_version(version: int)
    requires
        0 <= version < CURRENT_VERSION,
    ensures
        plan_spec(version).len() > 0,
        plan_spec(version).last().stamp == CURRENT_VERSION,
        forall|i: int, j: int| 0 <= i < j < plan_spec(version).len() ==> #[trigger] plan_spec(version)[i].stamp
            <= #[trigger] plan_spec(version)[j].stamp,
        forall|i: int| 0 <= i < plan_spec(version).len() ==> #[trigger] plan_spec(version)[i].stamp
            >= plan_spec(version)[i].version,
{
}

/// A crash or a failure after a migration commits resumes exactly where
/// it stopped: the version that migration recorded asks for precisely the
/// migrations that were still to come.
pub proof fn lemma_crash_resumes_at_the_first_uncommitted_migration(version: int, k: int)
    requires
        0 <= version,
        0 <= k < plan_spec(version).len(),
    ensures
        plan_spec(plan_spec(version)[k].stamp as int) == plan_spec(version).subrange(k + 1, plan_spec(version).len() as int),
{
    let plan = plan_spec(version);
    let s = plan[k].stamp as int;
    assert(s == version + 1 + k);
    assert(plan_spec(s) =~= plan.subrange(k + 1, plan.len() as int));
}

/// A database already at the current version runs no migration.
pub proof fn lemma_current_database_is_left_alone(version: int)
    requires
        version >= CURRENT_VERSION,
    ensures
        plan_spec(version).len() == 0,
{
}


/// Whether `t` occurs in `s`.
pub open spec fn occurs_in(s: Seq<char>, t: Seq<char>) -> bool {
    exists|i: int| 0 <= i && i + t.len() <= s.len() && #[trigger] s.subrange(i, i + t.len()) == t
}

/// Whether `t` occurs in `s` at position `i`.
fn occurs_at(s: &str, t: &str, i: usize) -> (r: bool)
    requires
        i + t@.len() <= s@.len(),
    ensures
        r == (s@.subrange(i as int, i + t@.len()) == t@),
{
    let n = s.unicode_len();
    let m = t.unicode_len();
    let mut k: usize = 0;
    while k < m
        invariant
            0 <= k <= m,
            n == s@.len(),
            m == t@.len(),
            i + m <= s@.len(),
            forall|q: int| 0 <= q < k ==> s@[i + q] == t@[q],
        decreases m - k,
    {
        if s.get_char(i + k) != t.get_char(k) {
            assert(s@.subrange(i as int, i + m)[k as int] != t@[k as int]);
            return false;
        }
        k = k + 1;
    }
    assert(s@.subrange(i as int, i + m) =~= t@);
    true
}

/// Whether the schema of the accounts table, as `sqlite_master` records
/// it, already lets an account's provider be POP3: whether its provider
/// check names `'pop3'`. A table that does not must be rebuilt before a
/// POP3 account can be stored.
pub fn provider_check_allows_pop3(accounts_table_sql: &str) -> (r: bool)
    ensures
        r == occurs_in(accounts_table_sql@, "'pop3'"@),
{
    proof {
        reveal_strlit("'pop3'");
    }
    let needle = "'pop3'";
    let n = accounts_table_sql.unicode_len();
    let m = needle.unicode_len();
    if m > n {
        return false;
    }
    let mut i: usize = 0;
    while i <= n - m
        invariant
            n == accounts_table_sql@.len(),
            m == needle@.len(),
            m == 6,
            needle@ == "'pop3'"@,
            m <= n,
            0 <= i <= n - m + 1,
            forall|j: int| 0 <= j < i ==> #[trigger] accounts_table_sql@.subrange(j, j + m) != needle@,
        decreases n + 1 - i,
    {
        if occurs_at(accounts_table_sql, needle, i) {
            return true;
        }
        i = i + 1;
    }
    false
}


/// The positions the accounts are given when they first become orderable,
/// listed in the order they were already shown (oldest first): each its
/// place in that list, from 0, so that nothing is reshuffled and the first
/// account, the one new mail is written from, stays first.
pub fn account_sort_positions(ordered_ids: Vec<String>) -> (r: Vec<(String, i32)>)
    ensures
        r@.len() == ordered_ids@.len(),
        forall|i: int| 0 <= i < r@.len() ==> #[trigger] r@[i].0@ == ordered_ids@[i]@ && r@[i].1 == i as i32,
{
    let ghost given = ordered_ids@;
    let n = ordered_ids.len();
    let mut r: Vec<(String, i32)> = Vec::new();
    let mut rest = ordered_ids;
    let mut i: usize = 0;
    while rest.len() > 0
        invariant
            r@.len() == i,
            n == given.len(),
            i + rest@.len() == given.len(),
            rest@ == given.subrange(i as int, given.len() as int),
            forall|k: int| 0 <= k < i ==> #[trigger] r@[k].0@ == given[k]@ && r@[k].1 == k as i32,
        decreases rest@.len(),
    {
        let id = rest.remove(0);
        let position: i32 = #[verifier::truncate] (i as i32);
        r.push((id, position));
        assert(rest@ =~= given.subrange(i + 1, given.len() as int));
        i = i + 1;
    }
    r
}

} // verus!
