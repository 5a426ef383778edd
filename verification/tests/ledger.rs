use ledger_oxide::accounts::{
    account_active, account_balance, Account, AccountMutation, AccountQuery, AccountRow,
    UpdateAccountInput,
};
use ledger_oxide::bank_entries::{
    account_by_name, AccountByName, AccountEntryChange, AccountEntryRow, BankEntryMutation, BankEntryQuery, BankEntryRow,
    UpdateAccountEntryInput, UpdateBankEntryInput,
};
use ledger_oxide::bank_imports::{
    BankImport, BankImportMutation, BankImportQuery, ImportTally, ImportedEntry,
};
use ledger_oxide::date::{CalendarDate, Timestamp};
use ledger_oxide::ofx::OFXTransaction;
use ledger_oxide::projected_entries::{
    expand_rrule, recurrence_query, recurrence_text, ProjectedEntryMutation, ProjectedEntryQuery, ProjectedEntryRow,
    UpdateProjectedEntryInput,
};
use ledger_oxide::schema::HealthQuery;
use ledger_oxide::text::not_found_message;

fn date(year: i32, month: u32, day: u32) -> CalendarDate {
    CalendarDate { year, month, day }
}

fn at(micros: i64) -> Timestamp {
    Timestamp { micros }
}

fn account_row() -> AccountRow {
    AccountRow {
        id: 7,
        name: "Groceries".to_string(),
        asset: false,
        category: Some("Food".to_string()),
        position: Some(3),
        deleted_at: None,
        created_at: at(1),
        updated_at: at(2),
    }
}

fn projection(id: i32, on: CalendarDate, rrule: Option<&str>) -> ProjectedEntryRow {
    ProjectedEntryRow {
        id,
        account_id: 100 + id,
        description: Some(format!("projection {id}")),
        amount_cents: -1000 * id,
        date: on,
        rrule: rrule.map(|r| r.to_string()),
        active: true,
        created_at: at(0),
        updated_at: at(0),
    }
}

#[test]
fn health_is_ok() {
    assert_eq!(HealthQuery.health(), "ok");
}

#[test]
fn calendar_date_new_checks_the_calendar() {
    assert_eq!(CalendarDate::new(2024, 2, 29), Some(date(2024, 2, 29)));
    assert_eq!(CalendarDate::new(1900, 2, 29), None);
    assert_eq!(CalendarDate::new(2000, 2, 29), Some(date(2000, 2, 29)));
    assert_eq!(CalendarDate::new(2024, 4, 31), None);
    assert_eq!(CalendarDate::new(2024, 0, 1), None);
    assert_eq!(CalendarDate::new(262143, 1, 1), None);
    assert!(date(2024, 1, 31).le(&date(2024, 2, 1)));
    assert!(!date(2024, 2, 1).le(&date(2024, 1, 31)));
}

#[test]
fn not_found_messages_name_the_id() {
    assert_eq!(not_found_message("account", 7), "account 7 not found");
    assert_eq!(not_found_message("bank entry", -12), "bank entry -12 not found");
    assert_eq!(not_found_message("projected entry", 0), "projected entry 0 not found");
}

#[test]
fn account_balance_defaults_to_zero() {
    assert_eq!(account_balance(Some((1250,))), Some(1250));
    assert_eq!(account_balance(Some((-70,))), Some(-70));
    assert_eq!(account_balance(None), Some(0));
}

#[test]
fn account_balance_beyond_32_bits_is_refused() {
    assert_eq!(account_balance(Some((2_147_483_647,))), Some(i32::MAX));
    assert_eq!(account_balance(Some((2_147_483_648,))), None);
    assert_eq!(account_balance(Some((-2_147_483_649,))), None);
}

fn listed(id: i32, active: bool) -> Account {
    let mut row = account_row();
    row.id = id;
    Account::from_row(row, 0, active)
}

#[test]
fn active_accounts_are_listed_first() {
    let q = AccountQuery;
    let accounts = vec![listed(1, false), listed(2, true), listed(3, false), listed(4, true)];
    let ids: Vec<i32> = q.active_first(accounts).iter().map(|a| a.id).collect();
    assert_eq!(ids, vec![2, 4, 1, 3]);
    assert!(q.active_first(vec![]).is_empty());
}

#[test]
fn account_by_name_finds_or_creates() {
    match account_by_name(Some(account_row())) {
        AccountByName::Found(a) => assert_eq!(a.id, 7),
        AccountByName::Create => panic!("an existing account is used"),
    }
    assert!(matches!(account_by_name(None), AccountByName::Create));
}

#[test]
fn needing_distribution_lists_unbalanced_entries_latest_first() {
    let sql = BankImportQuery.needing_distribution_sql();
    assert!(!sql.contains("be.amount_cents != 0"));
    assert!(sql.contains("), 0) != be.amount_cents"));
    assert!(sql.ends_with("ORDER BY be.date DESC, be.id DESC"));
}

#[test]
fn account_is_active_with_a_balance_or_recent_entries() {
    assert!(account_active(-5, None));
    assert!(account_active(5, Some((false,))));
    assert!(account_active(0, Some((true,))));
    assert!(!account_active(0, Some((false,))));
    assert!(!account_active(0, None));
}

#[test]
fn accounts_lists_active_ones_unless_asked_for_all() {
    let q = AccountQuery;
    assert_eq!(q.accounts_sql(None), q.accounts_sql(Some(true)));
    assert!(q.accounts_sql(None).contains("INTERVAL '90 days'"));
    assert_eq!(
        q.accounts_sql(Some(false)),
        "SELECT * FROM accounts
                 ORDER BY position ASC, name ASC"
    );
    assert!(q.accounts_sql(Some(true)).contains("WHERE deleted_at IS NULL"));
}

#[test]
fn update_account_keeps_what_is_not_given() {
    let m = AccountMutation;
    let input = UpdateAccountInput { name: None, asset: Some(true), category: None, position: None };
    let r = m.update_account(7, Some(account_row()), input).unwrap();
    assert_eq!(r, ("Groceries".to_string(), true, Some("Food".to_string()), Some(3)));
    let input = UpdateAccountInput {
        name: Some("Food".to_string()),
        asset: None,
        category: Some("Home".to_string()),
        position: Some(1),
    };
    let r = m.update_account(7, Some(account_row()), input).unwrap();
    assert_eq!(r, ("Food".to_string(), false, Some("Home".to_string()), Some(1)));
}

#[test]
fn update_and_delete_of_a_missing_account_fail() {
    let m = AccountMutation;
    let input = UpdateAccountInput { name: None, asset: None, category: None, position: None };
    assert_eq!(m.update_account(9, None, input).unwrap_err(), "account 9 not found");
    assert_eq!(m.delete_account(9, None).unwrap_err(), "account 9 not found");
    assert_eq!(m.delete_account(7, Some(account_row())).unwrap().name, "Groceries");
}

#[test]
fn bank_entries_sql_numbers_the_filters_present() {
    let q = BankEntryQuery;
    let d = Some(date(2024, 1, 1));
    assert_eq!(
        q.bank_entries_sql(&None, &None, &None),
        "SELECT be.* FROM bank_entries be ORDER BY be.date DESC, be.id DESC"
    );
    assert_eq!(
        q.bank_entries_sql(&d, &d, &Some(3)),
        "SELECT be.* FROM bank_entries be \
         WHERE be.date >= $1 AND be.date <= $2 AND EXISTS (SELECT 1 FROM account_entries ae \
         WHERE ae.bank_entry_id = be.id AND ae.account_id = $3) \
         ORDER BY be.date DESC, be.id DESC"
    );
    assert_eq!(
        q.bank_entries_sql(&None, &d, &Some(3)),
        "SELECT be.* FROM bank_entries be WHERE be.date <= $1 AND EXISTS (SELECT 1 \
         FROM account_entries ae WHERE ae.bank_entry_id = be.id AND ae.account_id = $2) \
         ORDER BY be.date DESC, be.id DESC"
    );
    assert!(!q.bank_entries_sql(&None, &None, &Some(3)).contains("JOIN"));
    assert_eq!(
        q.bank_entries_sql(&d, &None, &None),
        "SELECT be.* FROM bank_entries be WHERE be.date >= $1 ORDER BY be.date DESC, be.id DESC"
    );
}

fn entry_input(
    id: Option<i32>,
    name: Option<&str>,
    amount: Option<i32>,
    notes: Option<&str>,
    destroy: Option<bool>,
) -> UpdateAccountEntryInput {
    UpdateAccountEntryInput {
        id,
        account_name: name.map(|s| s.to_string()),
        amount_cents: amount,
        notes: notes.map(|s| s.to_string()),
        _destroy: destroy,
    }
}

#[test]
fn account_entry_inputs_ask_for_the_right_change() {
    assert_eq!(entry_input(Some(4), None, None, None, Some(true)).change(), AccountEntryChange::Delete { id: 4 });
    assert_eq!(entry_input(None, Some("X"), None, None, Some(true)).change(), AccountEntryChange::Ignore);
    assert_eq!(
        entry_input(Some(4), Some("X"), Some(5), None, Some(false)).change(),
        AccountEntryChange::Update {
            id: 4,
            amount_cents: Some(5),
            notes: None,
            account_name: Some("X".to_string())
        }
    );
    assert_eq!(
        entry_input(None, Some("X"), None, Some("n"), None).change(),
        AccountEntryChange::Create {
            account_name: "X".to_string(),
            amount_cents: 0,
            notes: Some("n".to_string())
        }
    );
    assert_eq!(entry_input(None, None, Some(5), None, None).change(), AccountEntryChange::Ignore);
}

fn bank_row() -> BankEntryRow {
    BankEntryRow {
        id: 11,
        date: date(2024, 3, 1),
        amount_cents: -4000,
        description: Some("Costco".to_string()),
        notes: None,
        external_id: Some("F1".to_string()),
        created_at: at(5),
        updated_at: at(6),
    }
}

#[test]
fn update_bank_entry_merges_fields_and_plans_split_changes() {
    let m = BankEntryMutation;
    let input = UpdateBankEntryInput {
        date: None,
        amount_cents: Some(-4500),
        description: None,
        notes: Some("bulk".to_string()),
        account_entries: Some(vec![
            entry_input(Some(1), None, None, None, Some(true)),
            entry_input(None, Some("Household"), Some(-500), None, None),
        ]),
    };
    let u = m.update_bank_entry(11, Some(bank_row()), input).unwrap();
    assert_eq!(u.date, date(2024, 3, 1));
    assert_eq!(u.amount_cents, -4500);
    assert_eq!(u.description.as_deref(), Some("Costco"));
    assert_eq!(u.notes.as_deref(), Some("bulk"));
    assert_eq!(
        u.account_entry_changes,
        Some(vec![
            AccountEntryChange::Delete { id: 1 },
            AccountEntryChange::Create {
                account_name: "Household".to_string(),
                amount_cents: -500,
                notes: None
            },
        ])
    );
    let input = UpdateBankEntryInput {
        date: None,
        amount_cents: None,
        description: None,
        notes: None,
        account_entries: None,
    };
    assert_eq!(m.update_bank_entry(12, None, input).unwrap_err(), "bank entry 12 not found");
}

#[test]
fn delete_bank_entry_returns_the_deleted_entry() {
    let m = BankEntryMutation;
    let entry = ledger_oxide::bank_entries::AccountEntry::with_stored_account(
        AccountEntryRow {
            id: 1,
            account_id: 7,
            bank_entry_id: 11,
            amount_cents: -4000,
            notes: None,
            created_at: at(0),
            updated_at: at(0),
        },
        Some(account_row()),
        -4000,
        true,
    );
    let account = entry.account.as_ref().unwrap();
    assert_eq!(account.balance_cents, -4000);
    assert!(account.active);
    let deleted = m.delete_bank_entry(11, Some(bank_row()), vec![entry]).unwrap();
    assert_eq!(deleted.id, 11);
    assert_eq!(deleted.account_entries.len(), 1);
    assert_eq!(m.delete_bank_entry(11, None, vec![]).unwrap_err(), "bank entry 11 not found");
}

fn txn(fitid: Option<&str>, trntype: Option<&str>, memo: Option<&str>) -> OFXTransaction {
    OFXTransaction {
        trntype: trntype.map(|s| s.to_string()),
        fitid: fitid.map(|s| s.to_string()),
        name: Some("Paycheck".to_string()),
        memo: memo.map(|s| s.to_string()),
        date: date(2024, 1, 15),
        amount_cents: 123456,
    }
}

#[test]
fn import_notes_join_type_and_memo() {
    let m = BankImportMutation;
    let s = |x: &str| Some(x.to_string());
    assert_eq!(m.import_notes(&s("CREDIT"), &s("June pay")), s("CREDIT: June pay"));
    assert_eq!(m.import_notes(&s("CREDIT"), &None), s("CREDIT"));
    assert_eq!(m.import_notes(&None, &s("June pay")), s("June pay"));
    assert_eq!(m.import_notes(&None, &None), None);
}

#[test]
fn import_skips_known_transactions_and_stores_new_ones() {
    let m = BankImportMutation;
    let t = txn(Some("TXN001"), Some("CREDIT"), Some("memo"));
    assert_eq!(m.duplicate_check_id(&t).map(|s| s.as_str()), Some("TXN001"));
    assert!(m.import_transaction(&t, true).is_none());
    let e = m.import_transaction(&t, false).unwrap();
    assert_eq!(e.date, date(2024, 1, 15));
    assert_eq!(e.amount_cents, 123456);
    assert_eq!(e.description.as_deref(), Some("Paycheck"));
    assert_eq!(e.notes.as_deref(), Some("CREDIT: memo"));
    assert_eq!(e.external_id.as_deref(), Some("TXN001"));
    assert!(m.duplicate_check_id(&txn(None, None, None)).is_none());
}

#[test]
fn import_tally_counts_created_and_skipped() {
    let mut tally = ImportTally::new();
    tally.record_skipped();
    tally.record_created(ImportedEntry::from_row(bank_row()));
    tally.record_skipped();
    let result = tally.into_result(BankImport { id: 1, balance_cents: 567890, created_at: at(9) });
    assert_eq!(result.created_count, 1);
    assert_eq!(result.skipped_count, 2);
    assert_eq!(result.entries.len(), 1);
    assert_eq!(result.entries[0].external_id.as_deref(), Some("F1"));
    assert!(!result.entries[0].was_skipped);
    assert_eq!(result.bank_import.balance_cents, 567890);
}

#[test]
fn projected_entries_sql_numbers_the_filters_present() {
    let q = ProjectedEntryQuery;
    assert_eq!(
        q.projected_entries_sql(&None, &None),
        "SELECT * FROM projected_entries WHERE 1=1 ORDER BY date ASC, id ASC"
    );
    assert_eq!(
        q.projected_entries_sql(&Some(1), &Some(true)),
        "SELECT * FROM projected_entries WHERE 1=1 AND account_id = $1 AND active = $2 ORDER BY date ASC, id ASC"
    );
    assert_eq!(
        q.projected_entries_sql(&None, &Some(false)),
        "SELECT * FROM projected_entries WHERE 1=1 AND active = $1 ORDER BY date ASC, id ASC"
    );
}

#[test]
fn expand_rrule_lists_occurrences_in_the_range() {
    let dates = expand_rrule(date(2024, 1, 1), "FREQ=WEEKLY;COUNT=10", date(2024, 1, 5), date(2024, 1, 22));
    assert_eq!(dates, vec![date(2024, 1, 8), date(2024, 1, 15), date(2024, 1, 22)]);
    let dates = expand_rrule(date(2024, 1, 31), "FREQ=MONTHLY;COUNT=3", date(2024, 1, 1), date(2024, 12, 31));
    assert_eq!(dates, vec![date(2024, 1, 31), date(2024, 3, 31), date(2024, 5, 31)]);
}

#[test]
fn recurrence_text_starts_at_midnight_utc() {
    assert_eq!(
        recurrence_text(date(2024, 3, 5), "FREQ=DAILY"),
        "DTSTART:20240305T000000Z\nRRULE:FREQ=DAILY"
    );
}

#[test]
fn recurrence_query_asks_for_whole_days_and_at_most_a_thousand() {
    let q = recurrence_query(date(2024, 3, 5), "FREQ=DAILY", date(2024, 4, 1), date(2024, 4, 30));
    assert_eq!(q.set_text, "DTSTART:20240305T000000Z\nRRULE:FREQ=DAILY");
    assert_eq!((q.after, q.after_time), (date(2024, 4, 1), (0, 0, 0)));
    assert_eq!((q.before, q.before_time), (date(2024, 4, 30), (23, 59, 59)));
    assert_eq!(q.limit, 1000);
}

#[test]
fn disabled_projections_are_hidden_from_the_forecast() {
    let q = ProjectedEntryQuery;
    let mut off = projection(1, date(2024, 1, 10), None);
    off.active = false;
    let mut off_recurring = projection(2, date(2024, 1, 1), Some("FREQ=DAILY"));
    off_recurring.active = false;
    let projections = vec![off, off_recurring, projection(3, date(2024, 1, 12), None)];
    let dates = q.occurrence_dates(&projections, date(2024, 1, 1), date(2024, 1, 31));
    assert!(dates[0].is_empty());
    assert!(dates[1].is_empty());
    let lines = q.forecast(vec![], projections, vec![vec![date(2024, 1, 10)], vec![], vec![date(2024, 1, 12)]]);
    assert_eq!(lines.len(), 1);
    assert_eq!(lines[0].projected_entry_id, Some(3));
    assert!(q.forecast_projections_sql().contains("WHERE active = true"));
    assert!(q.forecast_bank_rows_sql().contains("WHERE date >= $1 AND date <= $2"));
}

#[test]
fn expand_rrule_of_an_invalid_rule_is_empty() {
    assert!(expand_rrule(date(2024, 1, 1), "NOT A RULE", date(2024, 1, 1), date(2024, 2, 1)).is_empty());
}

#[test]
fn forecast_merges_bank_entries_and_projections_in_date_order() {
    let q = ProjectedEntryQuery;
    let bank_rows = vec![
        (1, date(2024, 1, 10), Some("Rent".to_string()), -120000),
        (2, date(2024, 1, 3), None, 500),
    ];
    let projections = vec![
        projection(1, date(2024, 1, 10), None),
        projection(2, date(2024, 2, 1), None),
        projection(3, date(2024, 1, 1), Some("FREQ=WEEKLY;COUNT=3")),
    ];
    let dates = q.occurrence_dates(&projections, date(2024, 1, 1), date(2024, 1, 31));
    assert_eq!(dates[0], vec![date(2024, 1, 10)]);
    assert!(dates[1].is_empty());
    let lines = q.forecast(bank_rows, projections, dates);
    let summary: Vec<(CalendarDate, &str, Option<i32>, Option<i32>)> = lines
        .iter()
        .map(|l| (l.date, l.source.kind.as_str(), l.bank_entry_id, l.projected_entry_id))
        .collect();
    assert_eq!(
        summary,
        vec![
            (date(2024, 1, 1), "PROJECTED", None, Some(3)),
            (date(2024, 1, 3), "BANK_ENTRY", Some(2), None),
            (date(2024, 1, 8), "PROJECTED", None, Some(3)),
            (date(2024, 1, 10), "BANK_ENTRY", Some(1), None),
            (date(2024, 1, 10), "PROJECTED", None, Some(1)),
            (date(2024, 1, 15), "PROJECTED", None, Some(3)),
        ]
    );
    assert_eq!(lines[4].account_id, Some(101));
    assert_eq!(lines[4].amount_cents, -1000);
    assert_eq!(lines[4].description.as_deref(), Some("projection 1"));
    assert_eq!(lines[3].description.as_deref(), Some("Rent"));
}

#[test]
fn update_projected_entry_keeps_what_is_not_given() {
    let m = ProjectedEntryMutation;
    let input = UpdateProjectedEntryInput {
        account_id: None,
        description: None,
        amount_cents: Some(5),
        date: None,
        rrule: Some("FREQ=DAILY".to_string()),
        active: Some(false),
    };
    let r = m.update_projected_entry(2, Some(projection(2, date(2024, 2, 1), None)), input).unwrap();
    assert_eq!(
        r,
        (102, Some("projection 2".to_string()), 5, date(2024, 2, 1), Some("FREQ=DAILY".to_string()), false)
    );
    let input = UpdateProjectedEntryInput {
        account_id: None,
        description: None,
        amount_cents: None,
        date: None,
        rrule: None,
        active: None,
    };
    assert_eq!(m.update_projected_entry(5, None, input).unwrap_err(), "projected entry 5 not found");
    assert_eq!(m.delete_projected_entry(5, None).unwrap_err(), "projected entry 5 not found");
    assert_eq!(m.delete_projected_entry(2, Some(projection(2, date(2024, 2, 1), None))).unwrap().id, 2);
}

#[test]
fn an_edit_that_gives_nothing_changes_nothing() {
    let empty = UpdateAccountInput { name: None, asset: None, category: None, position: None };
    let r = AccountMutation.update_account(7, Some(account_row()), empty).unwrap();
    assert_eq!(r, ("Groceries".to_string(), false, Some("Food".to_string()), Some(3)));
}

#[test]
fn making_an_edit_twice_is_making_it_once() {
    let input = || UpdateAccountInput {
        name: Some("Food".to_string()),
        asset: None,
        category: None,
        position: Some(9),
    };
    let once = AccountMutation.update_account(7, Some(account_row()), input()).unwrap();
    let mut after = account_row();
    after.name = once.0.clone();
    after.asset = once.1;
    after.category = once.2.clone();
    after.position = once.3;
    let twice = AccountMutation.update_account(7, Some(after), input()).unwrap();
    assert_eq!(once, twice);
}
