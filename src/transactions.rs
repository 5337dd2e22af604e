//! The transaction store: an append-only ledger of money movements, listed
//! newest first.
use vstd::prelude::*;
use crate::ledger::{ids_exhausted, is_new_rowid, new_rowid, Ledger, StorageError};
use crate::money::{cents_of, cents_to_dollars, decimal_of_cents, dollars_to_cents, Decimal};
use crate::text::{
    copy_text_option,
    lemma_text_lt_asymmetric,
    lemma_text_lt_irreflexive,
    lemma_text_lt_total,
    lemma_text_lt_transitive,
    text_equal,
    text_less,
    text_lt,
};

verus! {

/// A transaction as storage holds it, with the amount in cents.
#[derive(Clone, Debug)]
pub struct TransactionRow {
    pub id: i64,
    pub account_id: i64,
    pub date: String,
    pub amount: i64,
    pub description: Option<String>,
    pub category_id: Option<i64>,
    pub pending: bool,
    pub cleared: bool,
    pub transaction_type: String,
    pub created_at: String,
    pub reconciled: bool,
    pub import_id: Option<String>,
    pub source: Option<String>,
    pub payee: Option<String>,
    pub original_description: Option<String>,
    pub memo: Option<String>,
}

/// A transaction as callers see it, with the amount as an exact decimal.
#[derive(Clone, Debug)]
pub struct Transaction {
    pub id: i64,
    pub account_id: i64,
    pub date: String,
    pub amount: Decimal,
    pub description: Option<String>,
    pub category_id: Option<i64>,
    pub pending: bool,
    pub cleared: bool,
    pub transaction_type: String,
    pub created_at: String,
    pub reconciled: bool,
    pub import_id: Option<String>,
    pub source: Option<String>,
    pub payee: Option<String>,
    pub original_description: Option<String>,
    pub memo: Option<String>,
}

/// The transactions table. Rows are never removed; ids are distinct.
pub struct TransactionTable {
    rows: Vec<TransactionRow>,
}

impl View for TransactionTable {
    type V = Seq<TransactionRow>;

    closed spec fn view(&self) -> Seq<TransactionRow> {
        self.rows@
    }
}

pub open spec fn transaction_ids(rows: Seq<TransactionRow>) -> Seq<i64> {
    rows.map_values(|r: TransactionRow| r.id)
}

pub open spec fn transaction_ids_distinct(rows: Seq<TransactionRow>) -> bool {
    forall|i: int, j: int|
        0 <= i < rows.len() && 0 <= j < rows.len() && i != j ==> rows[i].id != rows[j].id
}

pub open spec fn text_option_view(o: Option<String>) -> Option<Seq<char>> {
    match o {
        Some(s) => Some(s@),
        None => None,
    }
}

pub open spec fn str_option_view(o: Option<&str>) -> Option<Seq<char>> {
    match o {
        Some(s) => Some(s@),
        None => None,
    }
}

/// What callers see of a stored row: the amount decoded from cents.
pub open spec fn decode_transaction(r: TransactionRow) -> Transaction {
    Transaction {
        id: r.id,
        account_id: r.account_id,
        date: r.date,
        amount: decimal_of_cents(r.amount),
        description: r.description,
        category_id: r.category_id,
        pending: r.pending,
        cleared: r.cleared,
        transaction_type: r.transaction_type,
        created_at: r.created_at,
        reconciled: r.reconciled,
        import_id: r.import_id,
        source: r.source,
        payee: r.payee,
        original_description: r.original_description,
        memo: r.memo,
    }
}

/// The rows of account `account_id`, decoded, in table order.
pub open spec fn account_transactions(rows: Seq<TransactionRow>, account_id: i64) -> Seq<
    Transaction,
>
    decreases rows.len(),
{
    if rows.len() == 0 {
        Seq::empty()
    } else {
        let rest = account_transactions(rows.drop_last(), account_id);
        if rows.last().account_id == account_id {
            rest.push(decode_transaction(rows.last()))
        } else {
            rest
        }
    }
}

/// `a` is listed strictly before `b`: a later date, or the same date and a
/// larger id.
pub open spec fn listed_newer(a: Transaction, b: Transaction) -> bool {
    text_lt(b.date@, a.date@) || (a.date@ == b.date@ && a.id > b.id)
}

/// Newest first: by date descending, then by id descending.
pub open spec fn newest_first(s: Seq<Transaction>) -> bool {
    forall|i: int, j: int| 0 <= i < j < s.len() ==> !listed_newer(#[trigger] s[j], #[trigger] s[i])
}

/// Where a page starts in a listing of `len` entries; a negative offset
/// counts as none.
pub open spec fn page_start(len: nat, offset: i32) -> int {
    if offset < 0 {
        0
    } else if offset > len {
        len as int
    } else {
        offset as int
    }
}

/// Where a page ends in a listing of `len` entries; a negative limit means
/// no limit.
pub open spec fn page_end(len: nat, offset: i32, limit: i32) -> int {
    let start = page_start(len, offset);
    if limit < 0 || start + limit > len {
        len as int
    } else {
        start + limit
    }
}

/// `t` is the row that `insert_transaction` stores, with id `id`: a manual
/// expense, not reconciled.
pub open spec fn is_new_transaction_row(
    t: TransactionRow,
    id: i64,
    account_id: i64,
    date: Seq<char>,
    amount: Decimal,
    description: Option<Seq<char>>,
    payee: Option<Seq<char>>,
    memo: Option<Seq<char>>,
    category_id: Option<i64>,
    pending: bool,
    cleared: bool,
    now: String,
) -> bool {
    &&& t.id == id
    &&& t.account_id == account_id
    &&& t.date@ == date
    &&& t.amount == cents_of(amount)
    &&& text_option_view(t.description) == description
    &&& t.category_id == category_id
    &&& t.pending == pending
    &&& t.cleared == cleared
    &&& t.transaction_type@ == "expense"@
    &&& t.created_at == now
    &&& !t.reconciled
    &&& t.import_id is None
    &&& text_option_view(t.source) == Some("manual"@)
    &&& text_option_view(t.payee) == payee
    &&& t.original_description is None
    &&& text_option_view(t.memo) == memo
}

impl TransactionTable {
    #[verifier::type_invariant]
    spec fn well_formed(&self) -> bool {
        transaction_ids_distinct(self.rows@)
    }

    /// An empty table.
    pub fn new() -> (t: TransactionTable)
        ensures
            t@.len() == 0,
    {
        TransactionTable { rows: Vec::new() }
    }

    /// A table holding `rows`, if their ids are distinct.
    pub fn from_rows(rows: Vec<TransactionRow>) -> (t: Option<TransactionTable>)
        ensures
            t is Some <==> transaction_ids_distinct(rows@),
            t matches Some(tab) ==> tab@ == rows@,
    {
        let n = rows.len();
        let mut i: usize = 0;
        while i < n
            invariant
                n == rows@.len(),
                i <= n,
                forall|a: int, b: int|
                    0 <= a < i && 0 <= b < n && a != b ==> rows@[a].id != rows@[b].id,
            decreases n - i,
        {
            let mut j: usize = 0;
            while j < n
                invariant
                    n == rows@.len(),
                    i < n,
                    j <= n,
                    forall|b: int| 0 <= b < j && b != i ==> rows@[i as int].id != rows@[b].id,
                decreases n - j,
            {
                if j != i && rows[i].id == rows[j].id {
                    return None;
                }
                j = j + 1;
            }
            i = i + 1;
        }
        Some(TransactionTable { rows })
    }

    /// The stored rows, in table order.
    pub fn rows(&self) -> (r: &Vec<TransactionRow>)
        ensures
            r@ == self@,
    {
        &self.rows
    }

    /// The id for a new row, or `None` when every positive id is taken.
    fn next_id(&self) -> (r: Option<i64>)
        ensures
            r is None <==> ids_exhausted(transaction_ids(self@)),
            r matches Some(id) ==> is_new_rowid(transaction_ids(self@), id) && forall|k: int|
                0 <= k < self@.len() ==> self@[k].id != id,
    {
        let n = self.rows.len();
        let mut ids: Vec<i64> = Vec::new();
        let mut i: usize = 0;
        while i < n
            invariant
                n == self.rows@.len(),
                i <= n,
                ids@ == transaction_ids(self.rows@.take(i as int)),
            decreases n - i,
        {
            ids.push(self.rows[i].id);
            proof {
                assert(transaction_ids(self.rows@.take(i + 1)) =~= transaction_ids(self.rows@.take(i as int)).push(
                    self.rows@[i as int].id,
                ));
            }
            i = i + 1;
        }
        proof {
            assert(self.rows@.take(n as int) =~= self.rows@);
        }
        let r = new_rowid(&ids);
        proof {
            if let Some(id) = r {
                assert forall|k: int| 0 <= k < self@.len() implies self@[k].id != id by {
                    assert(ids@[k] == self@[k].id);
                }
            }
        }
        r
    }

    /// Appends a row whose id is new to the table.
    fn push_row(&mut self, row: TransactionRow)
        requires
            forall|k: int| 0 <= k < old(self)@.len() ==> old(self)@[k].id != row.id,
        ensures
            final(self)@ == old(self)@.push(row),
    {
        proof {
            use_type_invariant(&*self);
        }
        let mut rows: Vec<TransactionRow> = Vec::new();
        std::mem::swap(&mut self.rows, &mut rows);
        let ghost prev = rows@;
        assert(prev == old(self)@);
        rows.push(row);
        assert forall|i: int, j: int|
            0 <= i < rows@.len() && 0 <= j < rows@.len() && i != j implies rows@[i].id
            != rows@[j].id by {
            if i < prev.len() && j < prev.len() {
                assert(rows@[i] == prev[i] && rows@[j] == prev[j]);
            } else if i < prev.len() {
                assert(rows@[i] == prev[i]);
            } else {
                assert(rows@[j] == prev[j]);
            }
        }
        self.rows = rows;
    }
}

fn copy_str_option(o: Option<&str>) -> (r: Option<String>)
    ensures
        text_option_view(r) == str_option_view(o),
{
    match o {
        Some(s) => Some(String::from_str(s)),
        None => None,
    }
}

/// Records a manual expense on account `account_id` and returns its id, one
/// no row has: one past the largest id in the table, or once that is
/// `i64::MAX`, the smallest free positive id. The amount is stored as cents.
/// Fails with `Full` when every positive id is taken, and otherwise with `ForeignKeyViolation` when
/// the account, or the category given, does not exist; archived ones count
/// as existing.
pub fn insert_transaction(
    db: &mut Ledger,
    account_id: i64,
    date: &str,
    amount: Decimal,
    description: Option<&str>,
    payee: Option<&str>,
    memo: Option<&str>,
    category_id: Option<i64>,
    pending: bool,
    cleared: bool,
    now: &String,
) -> (r: Result<i64, StorageError>)
    ensures
        ({
            let old_rows = old(db).transactions@;
            let ids = transaction_ids(old_rows);
            let refs_exist = (exists|i: int|
                0 <= i < old(db).accounts@.len() && old(db).accounts@[i].id == account_id) && match category_id {
                Some(c) => exists|i: int|
                    0 <= i < old(db).categories@.len() && old(db).categories@[i].id == c,
                None => true,
            };
            match r {
                Ok(id) => is_new_rowid(ids, id) && !ids.contains(id) && refs_exist && final(db).transactions@.len() == old_rows.len()
                    + 1 && final(db).transactions@.drop_last() == old_rows
                    && is_new_transaction_row(
                    final(db).transactions@.last(),
                    id,
                    account_id,
                    date@,
                    amount,
                    str_option_view(description),
                    str_option_view(payee),
                    str_option_view(memo),
                    category_id,
                    pending,
                    cleared,
                    *now,
                ),
                Err(e) => final(db).transactions@ == old_rows && if ids_exhausted(ids) {
                    e == StorageError::Full
                } else {
                    e == StorageError::ForeignKeyViolation && !refs_exist
                },
            }
        }),
        final(db).accounts == old(db).accounts,
        final(db).categories == old(db).categories,
{
    proof {
        use_type_invariant(&db.transactions);
    }
    let id = match db.transactions.next_id() {
        Some(id) => id,
        None => {
            return Err(StorageError::Full);
        },
    };
    if !db.accounts.contains_id(account_id) {
        return Err(StorageError::ForeignKeyViolation);
    }
    match category_id {
        Some(c) => {
            if !db.categories.contains_id(c) {
                return Err(StorageError::ForeignKeyViolation);
            }
        },
        None => {},
    }
    let row = TransactionRow {
        id,
        account_id,
        date: String::from_str(date),
        amount: dollars_to_cents(amount),
        description: copy_str_option(description),
        category_id,
        pending,
        cleared,
        transaction_type: String::from_str("expense"),
        created_at: now.clone(),
        reconciled: false,
        import_id: None,
        source: Some(String::from_str("manual")),
        payee: copy_str_option(payee),
        original_description: None,
        memo: copy_str_option(memo),
    };
    let ghost before = db.transactions@;
    db.transactions.push_row(row);
    proof {
        assert(db.transactions@.drop_last() =~= before);
    }
    Ok(id)
}

proof fn lemma_listed_newer_asymmetric(a: Transaction, b: Transaction)
    ensures
        !(listed_newer(a, b) && listed_newer(b, a)),
{
    lemma_text_lt_asymmetric(a.date@, b.date@);
    lemma_text_lt_irreflexive(a.date@);
}

/// Not listed newer is transitive.
proof fn lemma_not_newer_transitive(a: Transaction, b: Transaction, c: Transaction)
    requires
        !listed_newer(b, a),
        !listed_newer(c, b),
    ensures
        !listed_newer(c, a),
{
    let (x, y, z) = (a.date@, b.date@, c.date@);
    lemma_text_lt_total(x, y);
    lemma_text_lt_total(y, z);
    lemma_text_lt_total(x, z);
    lemma_text_lt_asymmetric(x, z);
    lemma_text_lt_irreflexive(x);
    lemma_text_lt_irreflexive(y);
    if text_lt(y, x) && text_lt(z, y) {
        lemma_text_lt_transitive(z, y, x);
    }
    if text_lt(x, z) {
        if text_lt(x, y) {
            lemma_text_lt_asymmetric(x, y);
        }
        if text_lt(y, x) {
            lemma_text_lt_transitive(y, x, z);
            lemma_text_lt_asymmetric(y, z);
        }
        if x == y {
            lemma_text_lt_asymmetric(y, z);
        }
    }
}

fn decode_transaction_row(r: &TransactionRow) -> (t: Transaction)
    ensures
        t == decode_transaction(*r),
{
    Transaction {
        id: r.id,
        account_id: r.account_id,
        date: r.date.clone(),
        amount: cents_to_dollars(r.amount),
        description: copy_text_option(&r.description),
        category_id: r.category_id,
        pending: r.pending,
        cleared: r.cleared,
        transaction_type: r.transaction_type.clone(),
        created_at: r.created_at.clone(),
        reconciled: r.reconciled,
        import_id: copy_text_option(&r.import_id),
        source: copy_text_option(&r.source),
        payee: copy_text_option(&r.payee),
        original_description: copy_text_option(&r.original_description),
        memo: copy_text_option(&r.memo),
    }
}

fn is_listed_newer(a: &Transaction, b: &Transaction) -> (r: bool)
    ensures
        r == listed_newer(*a, *b),
{
    text_less(b.date.as_str(), a.date.as_str()) || (text_equal(a.date.as_str(), b.date.as_str())
        && a.id > b.id)
}

/// Inserts `t` into a listing after every entry that is not listed after it.
fn insert_newest_first(out: &mut Vec<Transaction>, t: Transaction)
    requires
        newest_first(old(out)@),
    ensures
        newest_first(final(out)@),
        final(out)@.to_multiset() == old(out)@.to_multiset().insert(t),
{
    let ghost before = out@;
    let mut pos: usize = 0;
    while pos < out.len() && !is_listed_newer(&t, &out[pos])
        invariant
            out@ == before,
            newest_first(before),
            pos <= before.len(),
            forall|k: int| 0 <= k < pos ==> !listed_newer(t, #[trigger] before[k]),
        decreases before.len() - pos,
    {
        pos = pos + 1;
    }
    proof {
        assert forall|k: int| pos <= k < before.len() implies listed_newer(
            t,
            #[trigger] before[k],
        ) by {
            if k > pos && !listed_newer(t, before[k]) {
                assert(!listed_newer(before[k], before[pos as int]));
                lemma_not_newer_transitive(before[pos as int], before[k], t);
            }
        }
    }
    out.insert(pos, t);
    proof {
        vstd::seq_lib::to_multiset_insert(before, pos as int, t);
        let after = out@;
        assert forall|i: int, j: int| 0 <= i < j < after.len() implies !listed_newer(
            #[trigger] after[j],
            #[trigger] after[i],
        ) by {
            if i == pos {
                lemma_listed_newer_asymmetric(t, after[j]);
            } else if i < pos && j > pos {
                assert(after[j] == before[j - 1]);
            } else if j > pos {
                assert(after[j] == before[j - 1]);
                assert(after[i] == before[i - 1]);
            }
        }
    }
}

/// One page of the transactions of account `account_id`, newest first (date
/// descending, then id descending): `limit` entries after skipping `offset`.
/// A negative offset skips none; a negative limit takes all the rest.
pub fn get_account_transactions(db: &Ledger, account_id: i64, limit: i32, offset: i32) -> (r: Vec<
    Transaction,
>)
    ensures
        exists|s: Seq<Transaction>|
            #![trigger s.to_multiset()]
            s.to_multiset() == account_transactions(db.transactions@, account_id).to_multiset()
                && newest_first(s) && r@ == s.subrange(
                page_start(s.len(), offset),
                page_end(s.len(), offset, limit),
            ),
{
    let rows = &db.transactions.rows;
    let n = rows.len();
    let mut all: Vec<Transaction> = Vec::new();
    let mut i: usize = 0;
    while i < n
        invariant
            n == rows@.len(),
            rows@ == db.transactions@,
            i <= n,
            all@.to_multiset() == account_transactions(rows@.take(i as int), account_id).to_multiset(),
            newest_first(all@),
        decreases n - i,
    {
        proof {
            assert(rows@.take(i + 1).drop_last() =~= rows@.take(i as int));
        }
        if rows[i].account_id == account_id {
            let t = decode_transaction_row(&rows[i]);
            proof {
                vstd::seq_lib::to_multiset_build(
                    account_transactions(rows@.take(i as int), account_id),
                    t,
                );
            }
            insert_newest_first(&mut all, t);
        }
        i = i + 1;
    }
    proof {
        assert(rows@.take(n as int) =~= rows@);
    }
    let ghost sorted = all@;
    let len = all.len();
    let start: usize = if offset < 0 {
        0
    } else if offset as usize > len {
        len
    } else {
        offset as usize
    };
    let mut page = all.split_off(start);
    if limit >= 0 && (limit as usize) < page.len() {
        page.truncate(limit as usize);
    }
    proof {
        assert(page@ =~= sorted.subrange(
            page_start(sorted.len(), offset),
            page_end(sorted.len(), offset, limit),
        ));
    }
    page
}

} // verus!
