//! The ledger's tables together, and what they share: how a new row's id is
//! chosen and how a statement can fail.
use vstd::prelude::*;
use crate::accounts::AccountTable;
use crate::categories::CategoryTable;
use crate::transactions::TransactionTable;

verus! {

/// Why a statement could not be carried out.
#[derive(Clone, Copy, Debug, PartialEq, Eq, Structural)]
pub enum StorageError {
    /// A referenced row does not exist.
    ForeignKeyViolation,
    /// No id is left for a new row.
    Full,
}

/// The database: one table per entity, handed to every store operation.
pub struct Ledger {
    pub accounts: AccountTable,
    pub categories: CategoryTable,
    pub transactions: TransactionTable,
}

impl Ledger {
    /// A database whose tables exist and are empty.
    pub fn new() -> (db: Ledger)
        ensures
            db.accounts@.len() == 0,
            db.categories@.len() == 0,
            db.transactions@.len() == 0,
    {
        Ledger {
            accounts: AccountTable::new(),
            categories: CategoryTable::new(),
            transactions: TransactionTable::new(),
        }
    }
}

/// The largest of `ids` (0 for none).
pub open spec fn largest_id(ids: Seq<i64>) -> int
    decreases ids.len(),
{
    if ids.len() == 0 {
        0
    } else {
        let m = largest_id(ids.drop_last());
        if ids.len() == 1 || ids.last() > m {
            ids.last() as int
        } else {
            m
        }
    }
}

/// Every positive id is taken: no row can be added.
pub open spec fn ids_exhausted(ids: Seq<i64>) -> bool {
    forall|p: i64| 1 <= p ==> ids.contains(p)
}

/// `id` is the id that a new row receives: one past the largest id in the
/// table (1 in an empty table); once the largest id is `i64::MAX`, the
/// smallest positive id that no row has.
pub open spec fn is_new_rowid(ids: Seq<i64>, id: i64) -> bool {
    if ids.len() == 0 {
        id == 1
    } else if largest_id(ids) < i64::MAX {
        id == largest_id(ids) + 1
    } else {
        &&& 1 <= id
        &&& !ids.contains(id)
        &&& forall|p: i64| 1 <= p < id ==> ids.contains(p)
    }
}

pub proof fn lemma_largest_id_bounds(ids: Seq<i64>)
    ensures
        forall|i: int| 0 <= i < ids.len() ==> ids[i] <= largest_id(ids),
        ids.len() > 0 ==> i64::MIN <= largest_id(ids) <= i64::MAX,
    decreases ids.len(),
{
    if ids.len() > 0 {
        lemma_largest_id_bounds(ids.drop_last());
        assert forall|i: int| 0 <= i < ids.len() implies ids[i] <= largest_id(ids) by {
            if i < ids.len() - 1 {
                assert(ids[i] == ids.drop_last()[i]);
            }
        }
    }
}

pub proof fn lemma_largest_id_push(ids: Seq<i64>, x: i64)
    ensures
        largest_id(ids.push(x)) == if ids.len() == 0 || x > largest_id(ids) {
            x as int
        } else {
            largest_id(ids)
        },
{
    assert(ids.push(x).drop_last() =~= ids);
}

/// Whether `ids` holds `id`.
fn ids_contain(ids: &Vec<i64>, id: i64) -> (r: bool)
    ensures
        r == ids@.contains(id),
{
    let n = ids.len();
    let mut i: usize = 0;
    while i < n
        invariant
            n == ids@.len(),
            i <= n,
            forall|k: int| 0 <= k < i ==> ids@[k] != id,
        decreases n - i,
    {
        if ids[i] == id {
            return true;
        }
        i = i + 1;
    }
    false
}

/// The id for a new row in a table whose rows have `ids`, or `None` when
/// every positive id is taken. The id is never one of `ids`.
pub fn new_rowid(ids: &Vec<i64>) -> (r: Option<i64>)
    ensures
        r is None <==> ids_exhausted(ids@),
        r matches Some(id) ==> is_new_rowid(ids@, id) && !ids@.contains(id),
{
    let n = ids.len();
    let mut m: i64 = 0;
    let mut i: usize = 0;
    while i < n
        invariant
            n == ids@.len(),
            i <= n,
            m == largest_id(ids@.take(i as int)),
        decreases n - i,
    {
        proof {
            assert(ids@.take(i + 1) =~= ids@.take(i as int).push(ids@[i as int]));
            lemma_largest_id_push(ids@.take(i as int), ids@[i as int]);
        }
        if i == 0 || ids[i] > m {
            m = ids[i];
        }
        i = i + 1;
    }
    proof {
        assert(ids@.take(n as int) =~= ids@);
        lemma_largest_id_bounds(ids@);
    }
    if n == 0 {
        assert(!ids@.contains(1));
        return Some(1);
    }
    if m < i64::MAX {
        let next = m + 1;
        proof {
            if ids@.contains(next) {
                let k = choose|k: int| 0 <= k < ids@.len() && ids@[k] == next;
                assert(ids@[k] <= largest_id(ids@));
            }
            if ids@.contains(i64::MAX) {
                let k = choose|k: int| 0 <= k < ids@.len() && ids@[k] == i64::MAX;
                assert(ids@[k] <= largest_id(ids@));
            }
            assert(!ids_exhausted(ids@));
        }
        return Some(next);
    }
    let mut c: i64 = 1;
    loop
        invariant
            n == ids@.len(),
            n > 0,
            largest_id(ids@) == i64::MAX,
            1 <= c,
            forall|p: i64| 1 <= p < c ==> ids@.contains(p),
        decreases i64::MAX - c,
    {
        if !ids_contain(ids, c) {
            return Some(c);
        }
        if c == i64::MAX {
            proof {
                assert forall|p: i64| 1 <= p implies ids@.contains(p) by {
                    if p < c {
                    } else {
                        assert(p == c);
                    }
                }
            }
            return None;
        }
        c = c + 1;
    }
}

} // verus!
