use pebble::account_colors::{
    backfill_account_colors, derive_account_color, is_valid_account_color, preset_color, AccountColorRow,
};
use pebble::migrations::{account_sort_positions, migration_plan, provider_check_allows_pop3, MigrationStep, CURRENT_VERSION};

fn row(id: &str, color: Option<&str>) -> AccountColorRow {
    AccountColorRow { id: id.to_string(), color: color.map(str::to_string) }
}

fn plan(rows: &[AccountColorRow]) -> Vec<(String, String)> {
    let rows: Vec<AccountColorRow> =
        rows.iter().map(|r| AccountColorRow { id: r.id.clone(), color: r.color.clone() }).collect();
    backfill_account_colors(&rows).into_iter().map(|a| (a.id, a.color)).collect()
}

#[test]
fn migration_v11_backfills_existing_account_colors() {
    let assigned = plan(&[row("account-1", None), row("account-2", None)]);
    assert_eq!(
        assigned,
        vec![
            ("account-1".to_string(), "#0ea5e9".to_string()),
            ("account-2".to_string(), "#22c55e".to_string())
        ]
    );
}

#[test]
fn usable_colours_are_kept_and_their_presets_skipped_whatever_the_case() {
    let assigned = plan(&[row("a", Some("#0EA5E9")), row("b", Some("red")), row("c", None)]);
    assert_eq!(assigned, vec![("b".to_string(), "#22c55e".to_string()), ("c".to_string(), "#f59e0b".to_string())]);
}

#[test]
fn once_every_preset_is_taken_the_id_decides() {
    let mut rows: Vec<AccountColorRow> = (0..12).map(|i| row(&format!("taken-{i}"), Some(preset_color(i)))).collect();
    rows.push(row("late", None));
    let assigned = plan(&rows);
    assert_eq!(assigned, vec![("late".to_string(), derive_account_color("late"))]);
}

#[test]
fn colour_validity_is_a_hash_and_six_hex_digits() {
    assert!(is_valid_account_color("#0ea5e9"));
    assert!(is_valid_account_color("#ABCDEF"));
    assert!(!is_valid_account_color("0ea5e9"));
    assert!(!is_valid_account_color("#0ea5e"));
    assert!(!is_valid_account_color("#0ea5e9a"));
    assert!(!is_valid_account_color("#0ea5eg"));
    assert!(!is_valid_account_color("#0ea5é"));
}

#[test]
fn the_fallback_colour_follows_the_id_hash() {
    // "a" hashes to 97, and 97 % 12 == 1.
    assert_eq!(derive_account_color("a"), "#22c55e");
    // The empty id hashes to 0.
    assert_eq!(derive_account_color(""), "#0ea5e9");
    // "ab" hashes to 97 * 31 + 98 == 3105, and 3105 % 12 == 9.
    assert_eq!(derive_account_color("ab"), "#ec4899");
    assert_eq!(derive_account_color("account-1"), derive_account_color("account-1"));
}

#[test]
fn migration_v11_adds_account_color_and_sets_schema_version() {
    let steps = migration_plan(10);
    assert_eq!(steps.len(), 10);
    assert_eq!(steps[0], MigrationStep { version: 11, stamp: 11 });
    assert_eq!(steps.last().unwrap().stamp, CURRENT_VERSION);
}

#[test]
fn every_migration_records_its_own_number() {
    let steps = migration_plan(17);
    assert_eq!(
        steps,
        vec![
            MigrationStep { version: 18, stamp: 18 },
            MigrationStep { version: 19, stamp: 19 },
            MigrationStep { version: 20, stamp: 20 }
        ]
    );
    assert!(migration_plan(20).is_empty());
    assert!(migration_plan(u32::MAX).is_empty());
    assert_eq!(migration_plan(0).len(), 20);
}

#[test]
fn provider_check_naming_pop3_admits_pop3_accounts() {
    let with_pop3 = "CREATE TABLE accounts (\n    id TEXT PRIMARY KEY,\n    provider TEXT NOT NULL CHECK(provider IN ('imap', 'pop3', 'gmail', 'outlook'))\n)";
    assert!(provider_check_allows_pop3(with_pop3));
    let without = "CREATE TABLE accounts (\n    id TEXT PRIMARY KEY,\n    provider TEXT NOT NULL CHECK(provider IN ('imap', 'gmail', 'outlook'))\n)";
    assert!(!provider_check_allows_pop3(without));
    assert!(!provider_check_allows_pop3("pop3 without quotes"));
    assert!(!provider_check_allows_pop3(""));
    assert!(provider_check_allows_pop3("'pop3'"));
}

#[test]
fn colours_handed_out_while_presets_last_are_all_different() {
    let mut rows = vec![row("kept", Some("#22C55E")), row("broken", Some("#zzzzzz"))];
    for i in 0..9 {
        rows.push(row(&format!("new-{i}"), None));
    }
    let assigned = plan(&rows);
    assert_eq!(assigned.len(), 10);
    let colours: Vec<String> = assigned.iter().map(|(_, c)| c.to_lowercase()).collect();
    for (i, a) in colours.iter().enumerate() {
        assert_ne!(a, "#22c55e");
        for b in &colours[i + 1..] {
            assert_ne!(a, b);
        }
    }
}

#[test]
fn a_crash_after_a_migration_resumes_with_the_ones_still_to_come() {
    let steps = migration_plan(15);
    for (k, step) in steps.iter().enumerate() {
        assert_eq!(step.stamp, step.version);
        let resumed = migration_plan(step.stamp);
        assert_eq!(resumed, steps[k + 1..].to_vec());
    }
}

#[test]
fn a_failed_last_migration_after_the_assistant_table_leaves_version_nineteen() {
    // From version 18, the assistant-table migration records 19; should the
    // next one fail, the database resumes with it alone.
    let steps = migration_plan(18);
    assert_eq!(steps[0], MigrationStep { version: 19, stamp: 19 });
    assert_eq!(migration_plan(steps[0].stamp), vec![MigrationStep { version: 20, stamp: 20 }]);
}

#[test]
fn accounts_keep_the_order_they_already_had() {
    let ids: Vec<String> = ["oldest", "middle", "newest"].iter().map(|s| s.to_string()).collect();
    assert_eq!(
        account_sort_positions(ids),
        vec![("oldest".to_string(), 0), ("middle".to_string(), 1), ("newest".to_string(), 2)]
    );
    assert!(account_sort_positions(Vec::new()).is_empty());
}
