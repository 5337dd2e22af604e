use tally_ledger::accounts::{
    archive_account, get_account, get_accounts, insert_account, update_account, AccountRow,
    AccountTable, CreateAccountRequest,
};
use tally_ledger::categories::{
    archive_category, get_categories, get_category, insert_category, seed_default_categories,
    update_category, Category, CategoryTable, CreateCategoryRequest,
};
use tally_ledger::ledger::{Ledger, StorageError};
use tally_ledger::money::{
    cents_to_dollars, cents_to_dollars_option, dollars_to_cents, dollars_to_cents_option, Decimal,
};
use tally_ledger::transactions::{
    get_account_transactions, insert_transaction, TransactionRow, TransactionTable,
};

fn now() -> String {
    "2024-02-01 08:30:00".to_string()
}

fn account(name: &str, order: Option<i32>) -> CreateAccountRequest {
    CreateAccountRequest {
        name: name.to_string(),
        account_type: "checking".to_string(),
        institution: None,
        current_balance: None,
        display_order: order,
        include_in_net_worth: None,
        account_number_last4: None,
    }
}

fn category(name: &str, order: Option<i32>, parent: Option<i64>) -> CreateCategoryRequest {
    CreateCategoryRequest {
        name: name.to_string(),
        display_order: order,
        parent_category_id: parent,
        default_discretionary: None,
        default_fixed: None,
    }
}

fn scaled(d: Decimal, scale: u32) -> i128 {
    d.units as i128 * 10i128.pow(scale - d.scale)
}

#[test]
fn half_cent_rounds_away_from_zero() {
    assert_eq!(dollars_to_cents(Decimal::new(1005, 3)), 101);
    assert_eq!(dollars_to_cents(Decimal::new(-1005, 3)), -101);
    assert_eq!(dollars_to_cents(Decimal::new(1004, 3)), 100);
    assert_eq!(dollars_to_cents(Decimal::new(125, 3)), 13);
    assert_eq!(dollars_to_cents(Decimal::new(-125, 3)), -13);
    assert_eq!(dollars_to_cents(Decimal::new(-1004, 3)), -100);
}

#[test]
fn cents_from_whole_and_short_amounts() {
    assert_eq!(dollars_to_cents(Decimal::new(5, 0)), 500);
    assert_eq!(dollars_to_cents(Decimal::new(-25, 1)), -250);
    assert_eq!(dollars_to_cents(Decimal::new(100050, 2)), 100050);
    assert_eq!(dollars_to_cents(Decimal::new(123456789, 6)), 12346);
}

#[test]
fn cents_saturate_at_the_i64_range() {
    assert_eq!(dollars_to_cents(Decimal::new(i64::MAX, 0)), i64::MAX);
    assert_eq!(dollars_to_cents(Decimal::new(i64::MIN, 0)), i64::MIN);
    assert_eq!(dollars_to_cents(Decimal::new(i64::MAX, 40)), 0);
    assert_eq!(dollars_to_cents(Decimal::new(i64::MIN, 21)), -1);
    assert_eq!(dollars_to_cents(Decimal::new(i64::MIN, 18)), -922);
}

#[test]
fn cents_to_dollars_is_exact() {
    assert_eq!(cents_to_dollars(100050), Decimal::new(100050, 2));
    assert_eq!(cents_to_dollars(-1), Decimal::new(-1, 2));
    assert_eq!(cents_to_dollars_option(None), None);
    assert_eq!(dollars_to_cents_option(None), None);
    assert_eq!(dollars_to_cents_option(Some(Decimal::new(7, 1))), Some(70));
    assert_eq!(cents_to_dollars_option(Some(70)), Some(Decimal::new(70, 2)));
}

#[test]
fn two_digit_amounts_survive_the_round_trip() {
    for text in ["1000.50", "-250.5", "0", "12", "0.01", "-0.99", "92233720368547758.07"] {
        let v = Decimal::parse(text).unwrap();
        let back = cents_to_dollars(dollars_to_cents(v));
        assert_eq!(scaled(back, 2), scaled(v, 2), "{}", text);
    }
}

#[test]
fn decimal_text_is_read_exactly() {
    assert_eq!(Decimal::parse("1000.50"), Some(Decimal::new(100050, 2)));
    assert_eq!(Decimal::parse("-0.005"), Some(Decimal::new(-5, 3)));
    assert_eq!(Decimal::parse("42"), Some(Decimal::new(42, 0)));
    assert_eq!(
        Decimal::parse("-9223372036854775808"),
        Some(Decimal::new(i64::MIN, 0))
    );
    for bad in ["", "-", "1.", ".5", "abc", "1.2.3", "--1", "1e5", "9223372036854775808", " 1"] {
        assert_eq!(Decimal::parse(bad), None, "{}", bad);
    }
}

#[test]
fn listing_orders_by_display_order_then_name() {
    let mut db = Ledger::new();
    insert_account(&mut db, &account("b", None), &now()).unwrap();
    insert_account(&mut db, &account("a", Some(1)), &now()).unwrap();
    insert_account(&mut db, &account("A", Some(1)), &now()).unwrap();
    insert_account(&mut db, &account("a", None), &now()).unwrap();
    insert_account(&mut db, &account("z", Some(-3)), &now()).unwrap();
    let names: Vec<(Option<i32>, String)> = get_accounts(&db)
        .into_iter()
        .map(|a| (a.display_order, a.name))
        .collect();
    assert_eq!(
        names,
        vec![
            (None, "a".to_string()),
            (None, "b".to_string()),
            (Some(-3), "z".to_string()),
            (Some(1), "A".to_string()),
            (Some(1), "a".to_string()),
        ]
    );
}

#[test]
fn category_listing_puts_prefix_names_first() {
    let mut db = Ledger::new();
    insert_category(&mut db, &category("Foodstuff", Some(2), None), &now()).unwrap();
    insert_category(&mut db, &category("Food", Some(2), None), &now()).unwrap();
    insert_category(&mut db, &category("Fees", Some(2), None), &now()).unwrap();
    let names: Vec<String> = get_categories(&db).into_iter().map(|c| c.name).collect();
    assert_eq!(names, vec!["Fees", "Food", "Foodstuff"]);
}

#[test]
fn archiving_twice_changes_nothing_the_second_time() {
    let mut db = Ledger::new();
    let keep = insert_account(&mut db, &account("Keep", Some(1)), &now()).unwrap();
    let gone = insert_account(&mut db, &account("Gone", Some(2)), &now()).unwrap();
    assert!(archive_account(&mut db, gone, &now()));
    let after_first: Vec<i64> = get_accounts(&db).iter().map(|a| a.id).collect();
    assert!(!archive_account(&mut db, gone, &"later".to_string()));
    let after_second: Vec<i64> = get_accounts(&db).iter().map(|a| a.id).collect();
    assert_eq!(after_first, vec![keep]);
    assert_eq!(after_second, after_first);

    let c = insert_category(&mut db, &category("Travel", Some(4), None), &now()).unwrap();
    assert!(archive_category(&mut db, c));
    let before: Vec<i64> = get_categories(&db).iter().map(|c| c.id).collect();
    assert!(!archive_category(&mut db, c));
    let after: Vec<i64> = get_categories(&db).iter().map(|c| c.id).collect();
    assert_eq!(before, after);
}

#[test]
fn archived_accounts_cannot_be_updated() {
    let mut db = Ledger::new();
    let id = insert_account(&mut db, &account("Old", Some(1)), &now()).unwrap();
    assert!(archive_account(&mut db, id, &now()));
    assert!(!update_account(&mut db, id, &account("New", Some(9)), &now()));
    assert!(get_account(&db, id).is_none());
    let row = db.accounts.rows().iter().find(|r| r.id == id).unwrap().clone();
    assert_eq!(row.name, "Old");
    assert!(row.archived);
}

#[test]
fn update_refreshes_only_the_update_time() {
    let mut db = Ledger::new();
    let id = insert_account(&mut db, &account("Card", None), &"t0".to_string()).unwrap();
    let created = get_account(&db, id).unwrap();
    assert_eq!(created.include_in_net_worth, true);
    assert_eq!(created.created_at, "t0");
    assert!(update_account(&mut db, id, &account("Card 2", Some(3)), &"t1".to_string()));
    let updated = get_account(&db, id).unwrap();
    assert_eq!(updated.created_at, "t0");
    assert_eq!(updated.updated_at, "t1");
    assert_eq!(updated.name, "Card 2");
}

#[test]
fn system_category_ignores_update_and_archive() {
    let mut db = Ledger::new();
    assert_eq!(seed_default_categories(&mut db, &now()), Ok(true));
    let system = get_categories(&db)[0].clone();
    let request = CreateCategoryRequest {
        name: "Renamed".to_string(),
        display_order: Some(7),
        parent_category_id: None,
        default_discretionary: Some(true),
        default_fixed: Some(true),
    };
    assert_eq!(update_category(&mut db, system.id, &request), Ok(false));
    assert!(!archive_category(&mut db, system.id));
    let still = get_category(&db, system.id).unwrap();
    assert_eq!(still.name, "Uncategorized");
    assert_eq!(still.display_order, Some(0));
    assert!(still.is_system_category);
    assert!(!still.archived);
}

#[test]
fn seeding_twice_keeps_one_system_category() {
    let mut db = Ledger::new();
    assert_eq!(seed_default_categories(&mut db, &now()), Ok(true));
    assert_eq!(seed_default_categories(&mut db, &now()), Ok(false));
    let system: Vec<_> = db
        .categories
        .rows()
        .iter()
        .filter(|c| c.is_system_category && c.name == "Uncategorized")
        .collect();
    assert_eq!(system.len(), 1);
}

#[test]
fn user_category_named_like_the_system_one_does_not_block_seeding() {
    let mut db = Ledger::new();
    insert_category(&mut db, &category("Uncategorized", Some(5), None), &now()).unwrap();
    assert_eq!(seed_default_categories(&mut db, &now()), Ok(true));
    assert_eq!(get_categories(&db).len(), 2);
}

#[test]
fn created_account_reads_back_and_archive_hides_it() {
    let mut db = Ledger::new();
    let request = CreateAccountRequest {
        name: "Checking".to_string(),
        account_type: "checking".to_string(),
        institution: None,
        current_balance: Some(Decimal::parse("1000.50").unwrap()),
        display_order: None,
        include_in_net_worth: None,
        account_number_last4: None,
    };
    let id = insert_account(&mut db, &request, &now()).unwrap();
    assert_eq!(
        get_account(&db, id).unwrap().current_balance,
        Some(Decimal::new(100050, 2))
    );
    assert_eq!(db.accounts.rows()[0].current_balance, Some(100050));
    assert!(archive_account(&mut db, id, &now()));
    assert!(get_account(&db, id).is_none());
    assert!(get_accounts(&db).iter().all(|a| a.id != id));
}

fn two_transactions() -> (Ledger, i64, i64, i64) {
    let mut db = Ledger::new();
    let acct = insert_account(&mut db, &account("Main", None), &now()).unwrap();
    let first = insert_transaction(
        &mut db, acct, "2024-01-15", Decimal::new(2550, 2), None, None, None, None, false, false,
        &now(),
    )
    .unwrap();
    let second = insert_transaction(
        &mut db, acct, "2024-01-16", Decimal::new(5000, 2), None, None, None, None, false, false,
        &now(),
    )
    .unwrap();
    (db, acct, first, second)
}

#[test]
fn newest_transaction_is_listed_first() {
    let (db, acct, first, second) = two_transactions();
    let ids: Vec<i64> = get_account_transactions(&db, acct, 10, 0).iter().map(|t| t.id).collect();
    assert_eq!(ids, vec![second, first]);
}

#[test]
fn second_page_of_one_holds_the_older_transaction() {
    let (db, acct, first, _) = two_transactions();
    let page = get_account_transactions(&db, acct, 1, 1);
    assert_eq!(page.len(), 1);
    assert_eq!(page[0].id, first);
    assert_eq!(page[0].date, "2024-01-15");
    assert_eq!(page[0].amount, Decimal::new(2550, 2));
}

#[test]
fn same_day_transactions_list_by_id_descending() {
    let (mut db, acct, _, second) = two_transactions();
    let third = insert_transaction(
        &mut db, acct, "2024-01-16", Decimal::new(1, 0), None, None, None, None, false, false,
        &now(),
    )
    .unwrap();
    let ids: Vec<i64> = get_account_transactions(&db, acct, -1, -5).iter().map(|t| t.id).collect();
    assert_eq!(ids[0], third);
    assert_eq!(ids[1], second);
    assert_eq!(ids.len(), 3);
    assert!(get_account_transactions(&db, acct, 5, 3).is_empty());
    assert!(get_account_transactions(&db, acct + 100, 5, 0).is_empty());
}

#[test]
fn manual_transactions_are_unreconciled_expenses() {
    let (db, acct, first, _) = two_transactions();
    let t = get_account_transactions(&db, acct, 10, 0)
        .into_iter()
        .find(|t| t.id == first)
        .unwrap();
    assert_eq!(t.transaction_type, "expense");
    assert_eq!(t.source, Some("manual".to_string()));
    assert!(!t.reconciled);
    assert_eq!(t.import_id, None);
    assert_eq!(t.created_at, now());
}

#[test]
fn transactions_need_existing_references() {
    let mut db = Ledger::new();
    let acct = insert_account(&mut db, &account("Main", None), &now()).unwrap();
    assert_eq!(
        insert_transaction(&mut db, acct + 1, "2024-01-01", Decimal::new(1, 0), None, None, None, None, false, false, &now()),
        Err(StorageError::ForeignKeyViolation)
    );
    assert_eq!(
        insert_transaction(&mut db, acct, "2024-01-01", Decimal::new(1, 0), None, None, None, Some(77), false, false, &now()),
        Err(StorageError::ForeignKeyViolation)
    );
    let cat = insert_category(&mut db, &category("Misc", None, None), &now()).unwrap();
    assert!(archive_account(&mut db, acct, &now()));
    assert!(archive_category(&mut db, cat));
    assert!(insert_transaction(&mut db, acct, "2024-01-01", Decimal::new(1, 0), None, None, None, Some(cat), false, false, &now()).is_ok());
}

#[test]
fn category_parents_must_exist() {
    let mut db = Ledger::new();
    assert_eq!(
        insert_category(&mut db, &category("Child", None, Some(5)), &now()),
        Err(StorageError::ForeignKeyViolation)
    );
    let parent = insert_category(&mut db, &category("Parent", None, None), &now()).unwrap();
    let child = insert_category(&mut db, &category("Child", None, Some(parent)), &now()).unwrap();
    assert_eq!(get_category(&db, child).unwrap().parent_category_id, Some(parent));
    assert_eq!(
        update_category(&mut db, child, &category("Child", None, Some(999))),
        Err(StorageError::ForeignKeyViolation)
    );
    assert_eq!(get_category(&db, child).unwrap().parent_category_id, Some(parent));
    assert_eq!(update_category(&mut db, child, &category("Child", None, Some(child))), Ok(true));
    let own = insert_category(&mut db, &category("Self", None, Some(child + 1)), &now()).unwrap();
    assert_eq!(own, child + 1);
}

#[test]
fn tables_refuse_duplicate_ids() {
    let row = AccountRow {
        id: 3,
        name: "A".to_string(),
        account_type: "checking".to_string(),
        created_at: now(),
        updated_at: now(),
        current_balance: None,
        institution: None,
        display_order: None,
        archived: false,
        include_in_net_worth: true,
        account_number_last4: None,
    };
    assert!(AccountTable::from_rows(vec![row.clone(), row.clone()]).is_none());
    assert!(AccountTable::from_rows(vec![row]).is_some());

    let mut db = Ledger::new();
    seed_default_categories(&mut db, &now()).unwrap();
    let mut system = db.categories.rows()[0].clone();
    assert!(CategoryTable::from_rows(vec![system.clone()]).is_some());
    system.id = 2;
    assert!(CategoryTable::from_rows(vec![db.categories.rows()[0].clone(), system]).is_none());
}

fn account_row(id: i64, archived: bool) -> AccountRow {
    AccountRow {
        id,
        name: "Held".to_string(),
        account_type: "checking".to_string(),
        created_at: now(),
        updated_at: now(),
        current_balance: None,
        institution: None,
        display_order: None,
        archived,
        include_in_net_worth: true,
        account_number_last4: None,
    }
}

#[test]
fn past_the_largest_i64_the_smallest_free_id_is_used() {
    let mut db = Ledger::new();
    db.accounts = AccountTable::from_rows(vec![account_row(i64::MAX, false), account_row(1, false)]).unwrap();
    assert_eq!(insert_account(&mut db, &account("One more", None), &now()), Ok(2));
    assert_eq!(insert_account(&mut db, &account("And another", None), &now()), Ok(3));
    assert_eq!(db.accounts.rows().len(), 4);
}

#[test]
fn seeding_succeeds_when_the_largest_category_id_is_taken() {
    let mut db = Ledger::new();
    let top = Category {
        id: i64::MAX,
        name: "Top".to_string(),
        archived: false,
        created_at: now(),
        display_order: None,
        parent_category_id: None,
        default_discretionary: None,
        default_fixed: None,
        last_used_date: None,
        is_system_category: false,
    };
    db.categories = CategoryTable::from_rows(vec![top]).unwrap();
    assert_eq!(seed_default_categories(&mut db, &now()), Ok(true));
    let system = db.categories.rows().iter().find(|c| c.is_system_category).unwrap();
    assert_eq!(system.id, 1);
    assert_eq!(insert_category(&mut db, &category("Next", None, None), &now()), Ok(2));
}

#[test]
fn transactions_on_an_archived_account_past_the_largest_id() {
    let mut db = Ledger::new();
    db.accounts = AccountTable::from_rows(vec![account_row(7, true)]).unwrap();
    let first = TransactionRow {
        id: i64::MAX,
        account_id: 7,
        date: "2024-01-01".to_string(),
        amount: 100,
        description: None,
        category_id: None,
        pending: false,
        cleared: false,
        transaction_type: "expense".to_string(),
        created_at: now(),
        reconciled: false,
        import_id: None,
        source: None,
        payee: None,
        original_description: None,
        memo: None,
    };
    db.transactions = TransactionTable::from_rows(vec![first]).unwrap();
    let id = insert_transaction(
        &mut db, 7, "2024-01-02", Decimal::new(5, 0), None, None, None, None, false, false, &now(),
    );
    assert_eq!(id, Ok(1));
    assert_eq!(get_account_transactions(&db, 7, 10, 0).len(), 2);
}

#[test]
fn new_ids_follow_the_largest_one() {
    let mut db = Ledger::new();
    let a = insert_account(&mut db, &account("A", None), &now()).unwrap();
    let b = insert_account(&mut db, &account("B", None), &now()).unwrap();
    assert_eq!((a, b), (1, 2));
}
