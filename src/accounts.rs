//! The account store: accounts with exact balances, archived rather than
//! deleted.
use vstd::prelude::*;
use crate::ledger::{ids_exhausted, is_new_rowid, new_rowid, Ledger, StorageError};
use crate::listing::{lemma_listing_le_transitive, lemma_listing_lt_asymmetric, listed_before, listing_lt};
use crate::money::{
    cents_of_option,
    cents_to_dollars_option,
    decimal_of_cents_option,
    dollars_to_cents_option,
    Decimal,
};
use crate::text::copy_text_option;

verus! {

/// An account as storage holds it, with the balance in cents.
#[derive(Clone, Debug)]
pub struct AccountRow {
    pub id: i64,
    pub name: String,
    pub account_type: String,
    pub created_at: String,
    pub updated_at: String,
    pub current_balance: Option<i64>,
    pub institution: Option<String>,
    pub display_order: Option<i32>,
    pub archived: bool,
    pub include_in_net_worth: bool,
    pub account_number_last4: Option<String>,
}

/// An account as callers see it, with the balance as an exact decimal.
#[derive(Clone, Debug)]
pub struct Account {
    pub id: i64,
    pub name: String,
    pub account_type: String,
    pub created_at: String,
    pub updated_at: String,
    pub current_balance: Option<Decimal>,
    pub institution: Option<String>,
    pub display_order: Option<i32>,
    pub archived: bool,
    pub include_in_net_worth: bool,
    pub account_number_last4: Option<String>,
}

/// The fields of an account that callers set, on creation and on update.
#[derive(Clone, Debug)]
pub struct CreateAccountRequest {
    pub name: String,
    pub account_type: String,
    pub institution: Option<String>,
    pub current_balance: Option<Decimal>,
    pub display_order: Option<i32>,
    pub include_in_net_worth: Option<bool>,
    pub account_number_last4: Option<String>,
}

/// The accounts table. Rows are never removed; ids are distinct.
pub struct AccountTable {
    rows: Vec<AccountRow>,
}

impl View for AccountTable {
    type V = Seq<AccountRow>;

    closed spec fn view(&self) -> Seq<AccountRow> {
        self.rows@
    }
}

pub open spec fn account_ids(rows: Seq<AccountRow>) -> Seq<i64> {
    rows.map_values(|r: AccountRow| r.id)
}

pub open spec fn account_ids_distinct(rows: Seq<AccountRow>) -> bool {
    forall|i: int, j: int|
        0 <= i < rows.len() && 0 <= j < rows.len() && i != j ==> rows[i].id != rows[j].id
}

/// Some row has id `id` and is not archived.
pub open spec fn account_is_live(rows: Seq<AccountRow>, id: i64) -> bool {
    exists|i: int| 0 <= i < rows.len() && rows[i].id == id && !rows[i].archived
}

/// What callers see of a stored row: the balance decoded from cents.
pub open spec fn decode_account(r: AccountRow) -> Account {
    Account {
        id: r.id,
        name: r.name,
        account_type: r.account_type,
        created_at: r.created_at,
        updated_at: r.updated_at,
        current_balance: decimal_of_cents_option(r.current_balance),
        institution: r.institution,
        display_order: r.display_order,
        archived: r.archived,
        include_in_net_worth: r.include_in_net_worth,
        account_number_last4: r.account_number_last4,
    }
}

/// The non-archived rows, decoded, in table order.
pub open spec fn live_accounts(rows: Seq<AccountRow>) -> Seq<Account>
    decreases rows.len(),
{
    if rows.len() == 0 {
        Seq::empty()
    } else {
        let rest = live_accounts(rows.drop_last());
        if rows.last().archived {
            rest
        } else {
            rest.push(decode_account(rows.last()))
        }
    }
}

/// `a` is listed strictly before `b`.
pub open spec fn account_listed_before(a: Account, b: Account) -> bool {
    listing_lt(a.display_order, a.name@, b.display_order, b.name@)
}

/// Non-decreasing in `(display_order, name)`.
pub open spec fn accounts_in_listing_order(s: Seq<Account>) -> bool {
    forall|i: int, j: int| 0 <= i < j < s.len() ==> !account_listed_before(#[trigger] s[j], #[trigger] s[i])
}

/// The row that `insert_account` stores.
pub open spec fn new_account_row(id: i64, req: CreateAccountRequest, now: String) -> AccountRow {
    AccountRow {
        id,
        name: req.name,
        account_type: req.account_type,
        created_at: now,
        updated_at: now,
        current_balance: cents_of_option(req.current_balance),
        institution: req.institution,
        display_order: req.display_order,
        archived: false,
        include_in_net_worth: match req.include_in_net_worth {
            Some(b) => b,
            None => true,
        },
        account_number_last4: req.account_number_last4,
    }
}

/// Row `r` with every user-settable field taken from `req`.
pub open spec fn rewritten_account(r: AccountRow, req: CreateAccountRequest, now: String) -> AccountRow {
    AccountRow {
        id: r.id,
        name: req.name,
        account_type: req.account_type,
        created_at: r.created_at,
        updated_at: now,
        current_balance: cents_of_option(req.current_balance),
        institution: req.institution,
        display_order: req.display_order,
        archived: r.archived,
        include_in_net_worth: match req.include_in_net_worth {
            Some(b) => b,
            None => true,
        },
        account_number_last4: req.account_number_last4,
    }
}

/// The table after `update_account`: the live row with `id` rewritten.
pub open spec fn updated_accounts(
    rows: Seq<AccountRow>,
    id: i64,
    req: CreateAccountRequest,
    now: String,
) -> Seq<AccountRow> {
    rows.map_values(
        |r: AccountRow|
            if r.id == id && !r.archived {
                rewritten_account(r, req, now)
            } else {
                r
            },
    )
}

/// Row `r` marked archived.
pub open spec fn archived_account(r: AccountRow, now: String) -> AccountRow {
    AccountRow { archived: true, updated_at: now, ..r }
}

/// The table after `archive_account`: the live row with `id` archived.
pub open spec fn archived_accounts(rows: Seq<AccountRow>, id: i64, now: String) -> Seq<AccountRow> {
    rows.map_values(
        |r: AccountRow|
            if r.id == id && !r.archived {
                archived_account(r, now)
            } else {
                r
            },
    )
}

impl AccountTable {
    #[verifier::type_invariant]
    spec fn well_formed(&self) -> bool {
        account_ids_distinct(self.rows@)
    }

    /// An empty table.
    pub fn new() -> (t: AccountTable)
        ensures
            t@.len() == 0,
    {
        AccountTable { rows: Vec::new() }
    }

    /// A table holding `rows`, if their ids are distinct.
    pub fn from_rows(rows: Vec<AccountRow>) -> (t: Option<AccountTable>)
        ensures
            t is Some <==> account_ids_distinct(rows@),
            t matches Some(tab) ==> tab@ == rows@,
    {
        let n = rows.len();
        let mut i: usize = 0;
        while i < n
            invariant
                n == rows@.len(),
                i <= n,
                forall|a: int, b: int| 0 <= a < i && 0 <= b < n && a != b ==> rows@[a].id != rows@[b].id,
            decreases n - i,
        {
            let mut j: usize = 0;
            while j < n
                invariant
                    n == rows@.len(),
                    i < n,
                    j <= n,
                    forall|b: int| 0 <= b < j && b != i ==> rows@[i as int].id != rows@[b].id,
                decreases n - j,
            {
                if j != i && rows[i].id == rows[j].id {
                    return None;
                }
                j = j + 1;
            }
            i = i + 1;
        }
        Some(AccountTable { rows })
    }

    /// The stored rows, in table order.
    pub fn rows(&self) -> (r: &Vec<AccountRow>)
        ensures
            r@ == self@,
    {
        &self.rows
    }

    /// The id for a new row, or `None` when every positive id is taken.
    fn next_id(&self) -> (r: Option<i64>)
        ensures
            r is None <==> ids_exhausted(account_ids(self@)),
            r matches Some(id) ==> is_new_rowid(account_ids(self@), id) && forall|k: int|
                0 <= k < self@.len() ==> self@[k].id != id,
    {
        let n = self.rows.len();
        let mut ids: Vec<i64> = Vec::new();
        let mut i: usize = 0;
        while i < n
            invariant
                n == self.rows@.len(),
                i <= n,
                ids@ == account_ids(self.rows@.take(i as int)),
            decreases n - i,
        {
            ids.push(self.rows[i].id);
            proof {
                assert(account_ids(self.rows@.take(i + 1)) =~= account_ids(self.rows@.take(i as int)).push(
                    self.rows@[i as int].id,
                ));
            }
            i = i + 1;
        }
        proof {
            assert(self.rows@.take(n as int) =~= self.rows@);
        }
        let r = new_rowid(&ids);
        proof {
            if let Some(id) = r {
                assert forall|k: int| 0 <= k < self@.len() implies self@[k].id != id by {
                    assert(ids@[k] == self@[k].id);
                }
            }
        }
        r
    }

    /// Appends a row whose id is new to the table.
    fn push_row(&mut self, row: AccountRow)
        requires
            forall|k: int| 0 <= k < old(self)@.len() ==> old(self)@[k].id != row.id,
        ensures
            final(self)@ == old(self)@.push(row),
    {
        proof {
            use_type_invariant(&*self);
        }
        let mut rows: Vec<AccountRow> = Vec::new();
        std::mem::swap(&mut self.rows, &mut rows);
        assert(account_ids_distinct(rows@));
        let ghost prev = rows@;
        assert(prev == old(self)@);
        rows.push(row);
        assert forall|i: int, j: int|
            0 <= i < rows@.len() && 0 <= j < rows@.len() && i != j implies rows@[i].id
            != rows@[j].id by {
            if i < prev.len() && j < prev.len() {
                assert(rows@[i] == prev[i] && rows@[j] == prev[j]);
            } else if i < prev.len() {
                assert(rows@[i] == prev[i]);
            } else {
                assert(rows@[j] == prev[j]);
            }
        }
        self.rows = rows;
    }

    /// Replaces row `i` by a row with the same id.
    fn set_row(&mut self, i: usize, row: AccountRow)
        requires
            i < old(self)@.len(),
            old(self)@[i as int].id == row.id,
        ensures
            final(self)@ == old(self)@.update(i as int, row),
    {
        proof {
            use_type_invariant(&*self);
        }
        let mut rows: Vec<AccountRow> = Vec::new();
        std::mem::swap(&mut self.rows, &mut rows);
        rows.set(i, row);
        assert(forall|k: int| 0 <= k < rows@.len() ==> rows@[k].id == old(self)@[k].id);
        self.rows = rows;
    }

    /// Whether some row has `id`, archived or not.
    pub(crate) fn contains_id(&self, id: i64) -> (r: bool)
        ensures
            r == exists|i: int| 0 <= i < self@.len() && self@[i].id == id,
    {
        self.position(id).is_some()
    }

    /// The index of the row with `id`, if there is one.
    fn position(&self, id: i64) -> (r: Option<usize>)
        ensures
            r matches Some(i) ==> i < self@.len() && self@[i as int].id == id,
            r is None ==> forall|i: int| 0 <= i < self@.len() ==> self@[i].id != id,
    {
        let n = self.rows.len();
        let mut i: usize = 0;
        while i < n
            invariant
                n == self.rows@.len(),
                i <= n,
                forall|k: int| 0 <= k < i ==> self.rows@[k].id != id,
            decreases n - i,
        {
            if self.rows[i].id == id {
                return Some(i);
            }
            i = i + 1;
        }
        None
    }
}

fn decode_account_row(r: &AccountRow) -> (a: Account)
    ensures
        a == decode_account(*r),
{
    Account {
        id: r.id,
        name: r.name.clone(),
        account_type: r.account_type.clone(),
        created_at: r.created_at.clone(),
        updated_at: r.updated_at.clone(),
        current_balance: cents_to_dollars_option(r.current_balance),
        institution: copy_text_option(&r.institution),
        display_order: r.display_order,
        archived: r.archived,
        include_in_net_worth: r.include_in_net_worth,
        account_number_last4: copy_text_option(&r.account_number_last4),
    }
}

/// The account with `id`, unless it is missing or archived; the balance comes
/// back as the exact decimal that the stored cents stand for.
pub fn get_account(db: &Ledger, id: i64) -> (r: Option<Account>)
    ensures
        match r {
            Some(a) => exists|i: int|
                0 <= i < db.accounts@.len() && db.accounts@[i].id == id && !db.accounts@[i].archived
                    && a == decode_account(#[trigger] db.accounts@[i]),
            None => !account_is_live(db.accounts@, id),
        },
{
    proof {
        use_type_invariant(&db.accounts);
    }
    match db.accounts.position(id) {
        Some(i) => {
            if db.accounts.rows[i].archived {
                None
            } else {
                Some(decode_account_row(&db.accounts.rows[i]))
            }
        },
        None => None,
    }
}

/// Inserts `a` into a listing after every entry that does not sort after it.
fn insert_in_listing_order(out: &mut Vec<Account>, a: Account)
    requires
        accounts_in_listing_order(old(out)@),
    ensures
        accounts_in_listing_order(final(out)@),
        final(out)@.to_multiset() == old(out)@.to_multiset().insert(a),
{
    let ghost before = out@;
    let mut pos: usize = 0;
    while pos < out.len() && !listed_before(
        a.display_order,
        a.name.as_str(),
        out[pos].display_order,
        out[pos].name.as_str(),
    )
        invariant
            out@ == before,
            accounts_in_listing_order(before),
            pos <= before.len(),
            forall|k: int| 0 <= k < pos ==> !account_listed_before(a, #[trigger] before[k]),
        decreases before.len() - pos,
    {
        pos = pos + 1;
    }
    proof {
        assert forall|k: int| pos <= k < before.len() implies account_listed_before(
            a,
            #[trigger] before[k],
        ) by {
            if k > pos && !account_listed_before(a, before[k]) {
                assert(!account_listed_before(before[k], before[pos as int]));
                lemma_listing_le_transitive(
                    before[pos as int].display_order,
                    before[pos as int].name@,
                    before[k].display_order,
                    before[k].name@,
                    a.display_order,
                    a.name@,
                );
            }
        }
    }
    out.insert(pos, a);
    proof {
        vstd::seq_lib::to_multiset_insert(before, pos as int, a);
        let after = out@;
        assert forall|i: int, j: int| 0 <= i < j < after.len() implies !account_listed_before(
            #[trigger] after[j],
            #[trigger] after[i],
        ) by {
            if i == pos {
                lemma_listing_lt_asymmetric(
                    a.display_order,
                    a.name@,
                    after[j].display_order,
                    after[j].name@,
                );
            } else if i < pos && j > pos {
                assert(after[j] == before[j - 1]);
            } else if j > pos {
                assert(after[j] == before[j - 1]);
                assert(after[i] == before[i - 1]);
            }
        }
    }
}

/// All non-archived accounts, ordered by display order (absent first), then
/// by name.
pub fn get_accounts(db: &Ledger) -> (r: Vec<Account>)
    ensures
        r@.to_multiset() == live_accounts(db.accounts@).to_multiset(),
        accounts_in_listing_order(r@),
{
    let rows = &db.accounts.rows;
    let n = rows.len();
    let mut out: Vec<Account> = Vec::new();
    let mut i: usize = 0;
    while i < n
        invariant
            n == rows@.len(),
            rows@ == db.accounts@,
            i <= n,
            out@.to_multiset() == live_accounts(rows@.take(i as int)).to_multiset(),
            accounts_in_listing_order(out@),
        decreases n - i,
    {
        proof {
            assert(rows@.take(i + 1).drop_last() =~= rows@.take(i as int));
        }
        if !rows[i].archived {
            let a = decode_account_row(&rows[i]);
            proof {
                vstd::seq_lib::to_multiset_build(live_accounts(rows@.take(i as int)), a);
            }
            insert_in_listing_order(&mut out, a);
        }
        i = i + 1;
    }
    proof {
        assert(rows@.take(n as int) =~= rows@);
    }
    out
}

/// Adds an account and returns its id, one no row has: one past the largest
/// id in the table, or once that is `i64::MAX`, the smallest free positive id.
/// It starts active; an absent `include_in_net_worth` counts as `true`; the
/// balance is stored as cents. Fails with `Full` only when every positive id
/// is taken.
pub fn insert_account(db: &mut Ledger, request: &CreateAccountRequest, now: &String) -> (r: Result<i64, StorageError>)
    ensures
        r is Err <==> ids_exhausted(account_ids(old(db).accounts@)),
        match r {
            Ok(id) => is_new_rowid(account_ids(old(db).accounts@), id) && !account_ids(
                old(db).accounts@,
            ).contains(id) && final(db).accounts@ == old(db).accounts@.push(new_account_row(id, *request, *now)),
            Err(e) => e == StorageError::Full && final(db).accounts@ == old(db).accounts@,
        },
        final(db).categories == old(db).categories,
        final(db).transactions == old(db).transactions,
{
    proof {
        use_type_invariant(&db.accounts);
    }
    let id = match db.accounts.next_id() {
        Some(id) => id,
        None => {
            return Err(StorageError::Full);
        },
    };
    let row = AccountRow {
        id,
        name: request.name.clone(),
        account_type: request.account_type.clone(),
        created_at: now.clone(),
        updated_at: now.clone(),
        current_balance: dollars_to_cents_option(request.current_balance),
        institution: copy_text_option(&request.institution),
        display_order: request.display_order,
        archived: false,
        include_in_net_worth: match request.include_in_net_worth {
            Some(b) => b,
            None => true,
        },
        account_number_last4: copy_text_option(&request.account_number_last4),
    };
    db.accounts.push_row(row);
    Ok(id)
}

/// Rewrites every user-settable field of the active account `account_id` and
/// refreshes its update time. A missing or archived account is left as it is;
/// the result says whether a row changed.
pub fn update_account(
    db: &mut Ledger,
    account_id: i64,
    request: &CreateAccountRequest,
    now: &String,
) -> (affected: bool)
    ensures
        final(db).accounts@ == updated_accounts(old(db).accounts@, account_id, *request, *now),
        affected == account_is_live(old(db).accounts@, account_id),
        final(db).categories == old(db).categories,
        final(db).transactions == old(db).transactions,
{
    proof {
        use_type_invariant(&db.accounts);
    }
    let ghost before = db.accounts@;
    match db.accounts.position(account_id) {
        Some(i) => {
            if db.accounts.rows[i].archived {
                proof {
                    assert(updated_accounts(before, account_id, *request, *now) =~= before);
                }
                false
            } else {
                let old_row = &db.accounts.rows[i];
                let row = AccountRow {
                    id: old_row.id,
                    name: request.name.clone(),
                    account_type: request.account_type.clone(),
                    created_at: old_row.created_at.clone(),
                    updated_at: now.clone(),
                    current_balance: dollars_to_cents_option(request.current_balance),
                    institution: copy_text_option(&request.institution),
                    display_order: request.display_order,
                    archived: old_row.archived,
                    include_in_net_worth: match request.include_in_net_worth {
                        Some(b) => b,
                        None => true,
                    },
                    account_number_last4: copy_text_option(&request.account_number_last4),
                };
                db.accounts.set_row(i, row);
                proof {
                    assert(db.accounts@ =~= updated_accounts(before, account_id, *request, *now));
                }
                true
            }
        },
        None => {
            proof {
                assert(updated_accounts(before, account_id, *request, *now) =~= before);
            }
            false
        },
    }
}

/// Archives the active account `account_id` and refreshes its update time. A
/// missing or already archived account is left as it is; the result says
/// whether a row changed.
pub fn archive_account(db: &mut Ledger, account_id: i64, now: &String) -> (affected: bool)
    ensures
        final(db).accounts@ == archived_accounts(old(db).accounts@, account_id, *now),
        affected == account_is_live(old(db).accounts@, account_id),
        final(db).categories == old(db).categories,
        final(db).transactions == old(db).transactions,
{
    proof {
        use_type_invariant(&db.accounts);
    }
    let ghost before = db.accounts@;
    match db.accounts.position(account_id) {
        Some(i) => {
            if db.accounts.rows[i].archived {
                proof {
                    assert(archived_accounts(before, account_id, *now) =~= before);
                }
                false
            } else {
                let old_row = &db.accounts.rows[i];
                let row = AccountRow {
                    id: old_row.id,
                    name: old_row.name.clone(),
                    account_type: old_row.account_type.clone(),
                    created_at: old_row.created_at.clone(),
                    updated_at: now.clone(),
                    current_balance: old_row.current_balance,
                    institution: copy_text_option(&old_row.institution),
                    display_order: old_row.display_order,
                    archived: true,
                    include_in_net_worth: old_row.include_in_net_worth,
                    account_number_last4: copy_text_option(&old_row.account_number_last4),
                };
                db.accounts.set_row(i, row);
                proof {
                    assert(db.accounts@ =~= archived_accounts(before, account_id, *now));
                }
                true
            }
        },
        None => {
            proof {
                assert(archived_accounts(before, account_id, *now) =~= before);
            }
            false
        },
    }
}

} // verus!
