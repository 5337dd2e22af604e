//! The category store: a tree of spending categories, with one protected
//! system category that no update or archive touches.
use vstd::prelude::*;
use crate::ledger::{ids_exhausted, is_new_rowid, new_rowid, Ledger, StorageError};
use crate::listing::{lemma_listing_le_transitive, lemma_listing_lt_asymmetric, listed_before, listing_lt};
use crate::text::{copy_text_option, text_equal};

verus! {

/// A category as storage holds it and callers see it.
#[derive(Clone, Debug)]
pub struct Category {
    pub id: i64,
    pub name: String,
    pub archived: bool,
    pub created_at: String,
    pub display_order: Option<i32>,
    pub parent_category_id: Option<i64>,
    pub default_discretionary: Option<bool>,
    pub default_fixed: Option<bool>,
    pub last_used_date: Option<String>,
    pub is_system_category: bool,
}

/// The fields of a category that callers set, on creation and on update.
#[derive(Clone, Debug)]
pub struct CreateCategoryRequest {
    pub name: String,
    pub display_order: Option<i32>,
    pub parent_category_id: Option<i64>,
    pub default_discretionary: Option<bool>,
    pub default_fixed: Option<bool>,
}

/// The categories table. Rows are never removed; ids are distinct, and at
/// most one row is the seeded system category.
pub struct CategoryTable {
    rows: Vec<Category>,
}

impl View for CategoryTable {
    type V = Seq<Category>;

    closed spec fn view(&self) -> Seq<Category> {
        self.rows@
    }
}

/// The name of the system category.
pub open spec fn system_category_name() -> Seq<char> {
    "Uncategorized"@
}

/// `c` is the seeded system category.
pub open spec fn is_seeded_system(c: Category) -> bool {
    c.is_system_category && c.name@ == system_category_name()
}

pub open spec fn category_ids(rows: Seq<Category>) -> Seq<i64> {
    rows.map_values(|r: Category| r.id)
}

/// Distinct ids, and at most one seeded system category.
pub open spec fn category_rows_valid(rows: Seq<Category>) -> bool {
    &&& forall|i: int, j: int|
        0 <= i < rows.len() && 0 <= j < rows.len() && i != j ==> rows[i].id != rows[j].id
    &&& forall|i: int, j: int|
        0 <= i < rows.len() && 0 <= j < rows.len() && is_seeded_system(#[trigger] rows[i])
            && is_seeded_system(#[trigger] rows[j]) ==> i == j
}

/// Some row has id `id`, archived or not.
pub open spec fn category_exists(rows: Seq<Category>, id: i64) -> bool {
    exists|i: int| 0 <= i < rows.len() && rows[i].id == id
}

/// Some row has id `id` and is not archived.
pub open spec fn category_is_live(rows: Seq<Category>, id: i64) -> bool {
    exists|i: int| 0 <= i < rows.len() && rows[i].id == id && !rows[i].archived
}

/// Some row has id `id`, is not archived and is not a system category: the
/// rows that updates and archives may change.
pub open spec fn category_is_editable(rows: Seq<Category>, id: i64) -> bool {
    exists|i: int|
        0 <= i < rows.len() && rows[i].id == id && !rows[i].archived && !rows[i].is_system_category
}

/// How many rows are the seeded system category.
pub open spec fn seeded_system_count(rows: Seq<Category>) -> nat
    decreases rows.len(),
{
    if rows.len() == 0 {
        0
    } else {
        seeded_system_count(rows.drop_last()) + if is_seeded_system(rows.last()) {
            1nat
        } else {
            0nat
        }
    }
}

/// The non-archived rows, in table order.
pub open spec fn live_categories(rows: Seq<Category>) -> Seq<Category>
    decreases rows.len(),
{
    if rows.len() == 0 {
        Seq::empty()
    } else {
        let rest = live_categories(rows.drop_last());
        if rows.last().archived {
            rest
        } else {
            rest.push(rows.last())
        }
    }
}

/// `a` is listed strictly before `b`.
pub open spec fn category_listed_before(a: Category, b: Category) -> bool {
    listing_lt(a.display_order, a.name@, b.display_order, b.name@)
}

/// Non-decreasing in `(display_order, name)`.
pub open spec fn categories_in_listing_order(s: Seq<Category>) -> bool {
    forall|i: int, j: int|
        0 <= i < j < s.len() ==> !category_listed_before(#[trigger] s[j], #[trigger] s[i])
}

/// The row that `insert_category` stores: always a user category.
pub open spec fn new_category_row(id: i64, req: CreateCategoryRequest, now: String) -> Category {
    Category {
        id,
        name: req.name,
        archived: false,
        created_at: now,
        display_order: req.display_order,
        parent_category_id: req.parent_category_id,
        default_discretionary: req.default_discretionary,
        default_fixed: req.default_fixed,
        last_used_date: None,
        is_system_category: false,
    }
}

/// `c` is the system category that seeding stores, with id `id`.
pub open spec fn is_seed_row(c: Category, id: i64, now: String) -> bool {
    &&& c.id == id
    &&& c.name@ == system_category_name()
    &&& !c.archived
    &&& c.created_at == now
    &&& c.display_order == Some(0i32)
    &&& c.parent_category_id is None
    &&& c.default_discretionary is None
    &&& c.default_fixed is None
    &&& c.last_used_date is None
    &&& c.is_system_category
}

/// The new parent reference can stand: absent, or naming an existing row, or
/// the row itself.
pub open spec fn parent_reference_holds(rows: Seq<Category>, parent: Option<i64>, own_id: i64) -> bool {
    match parent {
        Some(p) => p == own_id || category_exists(rows, p),
        None => true,
    }
}

/// Row `r` with the user-settable fields taken from `req`.
pub open spec fn rewritten_category(r: Category, req: CreateCategoryRequest) -> Category {
    Category {
        name: req.name,
        display_order: req.display_order,
        parent_category_id: req.parent_category_id,
        default_discretionary: req.default_discretionary,
        default_fixed: req.default_fixed,
        ..r
    }
}

/// The table after a successful `update_category`: the editable row with
/// `id` rewritten.
pub open spec fn updated_categories(rows: Seq<Category>, id: i64, req: CreateCategoryRequest) -> Seq<
    Category,
> {
    rows.map_values(
        |r: Category|
            if r.id == id && !r.archived && !r.is_system_category {
                rewritten_category(r, req)
            } else {
                r
            },
    )
}

/// The table after `archive_category`: the editable row with `id` archived.
pub open spec fn archived_categories(rows: Seq<Category>, id: i64) -> Seq<Category> {
    rows.map_values(
        |r: Category|
            if r.id == id && !r.archived && !r.is_system_category {
                Category { archived: true, ..r }
            } else {
                r
            },
    )
}

impl CategoryTable {
    #[verifier::type_invariant]
    spec fn well_formed(&self) -> bool {
        category_rows_valid(self.rows@)
    }

    /// An empty table.
    pub fn new() -> (t: CategoryTable)
        ensures
            t@.len() == 0,
    {
        CategoryTable { rows: Vec::new() }
    }

    /// A table holding `rows`, if their ids are distinct and at most one of
    /// them is the seeded system category.
    pub fn from_rows(rows: Vec<Category>) -> (t: Option<CategoryTable>)
        ensures
            t is Some <==> category_rows_valid(rows@),
            t matches Some(tab) ==> tab@ == rows@,
    {
        let n = rows.len();
        let mut i: usize = 0;
        while i < n
            invariant
                n == rows@.len(),
                i <= n,
                forall|a: int, b: int|
                    0 <= a < i && 0 <= b < n && a != b ==> rows@[a].id != rows@[b].id,
                forall|a: int, b: int|
                    0 <= a < i && 0 <= b < n && is_seeded_system(#[trigger] rows@[a])
                        && is_seeded_system(#[trigger] rows@[b]) ==> a == b,
            decreases n - i,
        {
            let si = is_seeded_system_row(&rows[i]);
            let mut j: usize = 0;
            while j < n
                invariant
                    n == rows@.len(),
                    i < n,
                    j <= n,
                    si == is_seeded_system(rows@[i as int]),
                    forall|b: int| 0 <= b < j && b != i ==> rows@[i as int].id != rows@[b].id,
                    forall|b: int|
                        0 <= b < j && si && is_seeded_system(#[trigger] rows@[b]) ==> b == i,
                decreases n - j,
            {
                if j != i && (rows[i].id == rows[j].id || (si && is_seeded_system_row(&rows[j]))) {
                    return None;
                }
                j = j + 1;
            }
            i = i + 1;
        }
        Some(CategoryTable { rows })
    }

    /// The stored rows, in table order.
    pub fn rows(&self) -> (r: &Vec<Category>)
        ensures
            r@ == self@,
    {
        &self.rows
    }

    /// The id for a new row, or `None` when every positive id is taken.
    fn next_id(&self) -> (r: Option<i64>)
        ensures
            r is None <==> ids_exhausted(category_ids(self@)),
            r matches Some(id) ==> is_new_rowid(category_ids(self@), id) && forall|k: int|
                0 <= k < self@.len() ==> self@[k].id != id,
    {
        let n = self.rows.len();
        let mut ids: Vec<i64> = Vec::new();
        let mut i: usize = 0;
        while i < n
            invariant
                n == self.rows@.len(),
                i <= n,
                ids@ == category_ids(self.rows@.take(i as int)),
            decreases n - i,
        {
            ids.push(self.rows[i].id);
            proof {
                assert(category_ids(self.rows@.take(i + 1)) =~= category_ids(self.rows@.take(i as int)).push(
                    self.rows@[i as int].id,
                ));
            }
            i = i + 1;
        }
        proof {
            assert(self.rows@.take(n as int) =~= self.rows@);
        }
        let r = new_rowid(&ids);
        proof {
            if let Some(id) = r {
                assert forall|k: int| 0 <= k < self@.len() implies self@[k].id != id by {
                    assert(ids@[k] == self@[k].id);
                }
            }
        }
        r
    }

    /// Appends a row whose id is new to the table, and which is not a second
    /// seeded system category.
    fn push_row(&mut self, row: Category)
        requires
            forall|k: int| 0 <= k < old(self)@.len() ==> old(self)@[k].id != row.id,
            is_seeded_system(row) ==> seeded_system_count(old(self)@) == 0,
        ensures
            final(self)@ == old(self)@.push(row),
    {
        proof {
            use_type_invariant(&*self);
        }
        let mut rows: Vec<Category> = Vec::new();
        std::mem::swap(&mut self.rows, &mut rows);
        let ghost prev = rows@;
        assert(prev == old(self)@);
        proof {
            if is_seeded_system(row) {
                lemma_no_seeded_system(prev);
            }
        }
        rows.push(row);
        assert forall|i: int, j: int|
            0 <= i < rows@.len() && 0 <= j < rows@.len() && i != j implies rows@[i].id
            != rows@[j].id by {
            if i < prev.len() && j < prev.len() {
                assert(rows@[i] == prev[i] && rows@[j] == prev[j]);
            } else if i < prev.len() {
                assert(rows@[i] == prev[i]);
            } else {
                assert(rows@[j] == prev[j]);
            }
        }
        assert forall|i: int, j: int|
            0 <= i < rows@.len() && 0 <= j < rows@.len() && is_seeded_system(#[trigger] rows@[i])
                && is_seeded_system(#[trigger] rows@[j]) implies i == j by {
            if i < prev.len() {
                assert(rows@[i] == prev[i]);
            }
            if j < prev.len() {
                assert(rows@[j] == prev[j]);
            }
        }
        self.rows = rows;
    }

    /// Replaces row `i`, a user category, by a user category with the same id.
    fn set_row(&mut self, i: usize, row: Category)
        requires
            i < old(self)@.len(),
            old(self)@[i as int].id == row.id,
            !old(self)@[i as int].is_system_category,
            !row.is_system_category,
        ensures
            final(self)@ == old(self)@.update(i as int, row),
    {
        proof {
            use_type_invariant(&*self);
        }
        let mut rows: Vec<Category> = Vec::new();
        std::mem::swap(&mut self.rows, &mut rows);
        let ghost prev = rows@;
        rows.set(i, row);
        assert(forall|k: int| 0 <= k < rows@.len() ==> rows@[k].id == prev[k].id);
        assert(forall|k: int| 0 <= k < rows@.len() && k != i ==> rows@[k] == prev[k]);
        self.rows = rows;
    }

    /// Whether some row has `id`, archived or not.
    pub(crate) fn contains_id(&self, id: i64) -> (r: bool)
        ensures
            r == category_exists(self@, id),
    {
        self.position(id).is_some()
    }

    /// The index of the row with `id`, if there is one.
    fn position(&self, id: i64) -> (r: Option<usize>)
        ensures
            r matches Some(i) ==> i < self@.len() && self@[i as int].id == id,
            r is None ==> forall|i: int| 0 <= i < self@.len() ==> self@[i].id != id,
    {
        let n = self.rows.len();
        let mut i: usize = 0;
        while i < n
            invariant
                n == self.rows@.len(),
                i <= n,
                forall|k: int| 0 <= k < i ==> self.rows@[k].id != id,
            decreases n - i,
        {
            if self.rows[i].id == id {
                return Some(i);
            }
            i = i + 1;
        }
        None
    }

    /// Whether some row is the seeded system category.
    fn has_seeded_system(&self) -> (r: bool)
        ensures
            r == (seeded_system_count(self@) > 0),
    {
        let n = self.rows.len();
        let mut i: usize = 0;
        while i < n
            invariant
                n == self.rows@.len(),
                i <= n,
                seeded_system_count(self.rows@.take(i as int)) == 0,
            decreases n - i,
        {
            proof {
                assert(self.rows@.take(i + 1).drop_last() =~= self.rows@.take(i as int));
            }
            if is_seeded_system_row(&self.rows[i]) {
                proof {
                    lemma_seeded_system_count_positive(self.rows@, i as int);
                }
                return true;
            }
            i = i + 1;
        }
        proof {
            assert(self.rows@.take(n as int) =~= self.rows@);
        }
        false
    }
}

proof fn lemma_no_seeded_system(rows: Seq<Category>)
    requires
        seeded_system_count(rows) == 0,
    ensures
        forall|i: int| 0 <= i < rows.len() ==> !is_seeded_system(#[trigger] rows[i]),
    decreases rows.len(),
{
    if rows.len() > 0 {
        lemma_no_seeded_system(rows.drop_last());
        assert forall|i: int| 0 <= i < rows.len() implies !is_seeded_system(#[trigger] rows[i]) by {
            if i < rows.len() - 1 {
                assert(rows[i] == rows.drop_last()[i]);
            }
        }
    }
}

proof fn lemma_seeded_system_count_positive(rows: Seq<Category>, i: int)
    requires
        0 <= i < rows.len(),
        is_seeded_system(rows[i]),
    ensures
        seeded_system_count(rows) > 0,
    decreases rows.len(),
{
    if i < rows.len() - 1 {
        assert(rows[i] == rows.drop_last()[i]);
        lemma_seeded_system_count_positive(rows.drop_last(), i);
    }
}

fn is_seeded_system_row(c: &Category) -> (r: bool)
    ensures
        r == is_seeded_system(*c),
{
    c.is_system_category && text_equal(c.name.as_str(), "Uncategorized")
}

fn copy_category(c: &Category) -> (r: Category)
    ensures
        r == *c,
{
    Category {
        id: c.id,
        name: c.name.clone(),
        archived: c.archived,
        created_at: c.created_at.clone(),
        display_order: c.display_order,
        parent_category_id: c.parent_category_id,
        default_discretionary: c.default_discretionary,
        default_fixed: c.default_fixed,
        last_used_date: copy_text_option(&c.last_used_date),
        is_system_category: c.is_system_category,
    }
}

/// `after` is what seeding makes of the table `before`: unchanged when it
/// holds the seeded system category, else `before` with the system category
/// appended under the id that a new row receives.
pub open spec fn seed_result(before: Seq<Category>, after: Seq<Category>, now: String) -> bool {
    if seeded_system_count(before) > 0 {
        after == before
    } else {
        &&& after.len() == before.len() + 1
        &&& after.drop_last() == before
        &&& is_new_rowid(category_ids(before), after.last().id)
        &&& !category_ids(before).contains(after.last().id)
        &&& is_seed_row(after.last(), after.last().id, now)
    }
}

/// Adds the system category "Uncategorized" (display order 0, active) unless
/// a system category of that name exists; `Ok` says whether a row was added.
/// Fails with `Full`, changing nothing, only when a row is owed and every
/// positive id is taken.
pub fn seed_default_categories(db: &mut Ledger, now: &String) -> (r: Result<bool, StorageError>)
    ensures
        r is Err <==> seeded_system_count(old(db).categories@) == 0 && ids_exhausted(
            category_ids(old(db).categories@),
        ),
        match r {
            Ok(added) => added == (seeded_system_count(old(db).categories@) == 0) && seed_result(
                old(db).categories@,
                final(db).categories@,
                *now,
            ),
            Err(e) => e == StorageError::Full && final(db).categories@ == old(db).categories@,
        },
        final(db).accounts == old(db).accounts,
        final(db).transactions == old(db).transactions,
{
    proof {
        use_type_invariant(&db.categories);
    }
    if db.categories.has_seeded_system() {
        return Ok(false);
    }
    let id = match db.categories.next_id() {
        Some(id) => id,
        None => {
            return Err(StorageError::Full);
        },
    };
    let name = String::from_str("Uncategorized");
    let row = Category {
        id,
        name,
        archived: false,
        created_at: now.clone(),
        display_order: Some(0),
        parent_category_id: None,
        default_discretionary: None,
        default_fixed: None,
        last_used_date: None,
        is_system_category: true,
    };
    let ghost before = db.categories@;
    db.categories.push_row(row);
    proof {
        assert(db.categories@.drop_last() =~= before);
    }
    Ok(true)
}

/// Adds a user category and returns its id, one no row has: one past the
/// largest id in the table, or once that is `i64::MAX`, the smallest free
/// positive id. Fails with `Full` when every positive id is taken, and
/// otherwise with `ForeignKeyViolation` when the parent it names does not
/// exist.
pub fn insert_category(db: &mut Ledger, request: &CreateCategoryRequest, now: &String) -> (r: Result<i64, StorageError>)
    ensures
        match r {
            Ok(id) => is_new_rowid(category_ids(old(db).categories@), id) && !category_ids(
                old(db).categories@,
            ).contains(id) && parent_reference_holds(old(db).categories@, request.parent_category_id, id)
                && final(db).categories@ == old(db).categories@.push(
                new_category_row(id, *request, *now),
            ),
            Err(e) => final(db).categories@ == old(db).categories@ && if ids_exhausted(
                category_ids(old(db).categories@),
            ) {
                e == StorageError::Full
            } else {
                e == StorageError::ForeignKeyViolation && forall|id: i64|
                    is_new_rowid(category_ids(old(db).categories@), id) ==> !parent_reference_holds(
                        old(db).categories@,
                        request.parent_category_id,
                        id,
                    )
            },
        },
        final(db).accounts == old(db).accounts,
        final(db).transactions == old(db).transactions,
{
    proof {
        use_type_invariant(&db.categories);
    }
    let id = match db.categories.next_id() {
        Some(id) => id,
        None => {
            return Err(StorageError::Full);
        },
    };
    match request.parent_category_id {
        Some(p) => {
            if p != id && !db.categories.contains_id(p) {
                return Err(StorageError::ForeignKeyViolation);
            }
        },
        None => {},
    }
    let row = Category {
        id,
        name: request.name.clone(),
        archived: false,
        created_at: now.clone(),
        display_order: request.display_order,
        parent_category_id: request.parent_category_id,
        default_discretionary: request.default_discretionary,
        default_fixed: request.default_fixed,
        last_used_date: None,
        is_system_category: false,
    };
    db.categories.push_row(row);
    Ok(id)
}

/// The category with `id`, unless it is missing or archived.
pub fn get_category(db: &Ledger, id: i64) -> (r: Option<Category>)
    ensures
        match r {
            Some(c) => exists|i: int|
                0 <= i < db.categories@.len() && db.categories@[i].id == id
                    && !db.categories@[i].archived && c == #[trigger] db.categories@[i],
            None => !category_is_live(db.categories@, id),
        },
{
    proof {
        use_type_invariant(&db.categories);
    }
    match db.categories.position(id) {
        Some(i) => {
            if db.categories.rows[i].archived {
                None
            } else {
                Some(copy_category(&db.categories.rows[i]))
            }
        },
        None => None,
    }
}

/// Inserts `c` into a listing after every entry that does not sort after it.
fn insert_in_listing_order(out: &mut Vec<Category>, c: Category)
    requires
        categories_in_listing_order(old(out)@),
    ensures
        categories_in_listing_order(final(out)@),
        final(out)@.to_multiset() == old(out)@.to_multiset().insert(c),
{
    let ghost before = out@;
    let mut pos: usize = 0;
    while pos < out.len() && !listed_before(
        c.display_order,
        c.name.as_str(),
        out[pos].display_order,
        out[pos].name.as_str(),
    )
        invariant
            out@ == before,
            categories_in_listing_order(before),
            pos <= before.len(),
            forall|k: int| 0 <= k < pos ==> !category_listed_before(c, #[trigger] before[k]),
        decreases before.len() - pos,
    {
        pos = pos + 1;
    }
    proof {
        assert forall|k: int| pos <= k < before.len() implies category_listed_before(
            c,
            #[trigger] before[k],
        ) by {
            if k > pos && !category_listed_before(c, before[k]) {
                assert(!category_listed_before(before[k], before[pos as int]));
                lemma_listing_le_transitive(
                    before[pos as int].display_order,
                    before[pos as int].name@,
                    before[k].display_order,
                    before[k].name@,
                    c.display_order,
                    c.name@,
                );
            }
        }
    }
    out.insert(pos, c);
    proof {
        vstd::seq_lib::to_multiset_insert(before, pos as int, c);
        let after = out@;
        assert forall|i: int, j: int| 0 <= i < j < after.len() implies !category_listed_before(
            #[trigger] after[j],
            #[trigger] after[i],
        ) by {
            if i == pos {
                lemma_listing_lt_asymmetric(
                    c.display_order,
                    c.name@,
                    after[j].display_order,
                    after[j].name@,
                );
            } else if i < pos && j > pos {
                assert(after[j] == before[j - 1]);
            } else if j > pos {
                assert(after[j] == before[j - 1]);
                assert(after[i] == before[i - 1]);
            }
        }
    }
}

/// All non-archived categories, system ones included, ordered by display
/// order (absent first), then by name.
pub fn get_categories(db: &Ledger) -> (r: Vec<Category>)
    ensures
        r@.to_multiset() == live_categories(db.categories@).to_multiset(),
        categories_in_listing_order(r@),
{
    let rows = &db.categories.rows;
    let n = rows.len();
    let mut out: Vec<Category> = Vec::new();
    let mut i: usize = 0;
    while i < n
        invariant
            n == rows@.len(),
            rows@ == db.categories@,
            i <= n,
            out@.to_multiset() == live_categories(rows@.take(i as int)).to_multiset(),
            categories_in_listing_order(out@),
        decreases n - i,
    {
        proof {
            assert(rows@.take(i + 1).drop_last() =~= rows@.take(i as int));
        }
        if !rows[i].archived {
            let c = copy_category(&rows[i]);
            proof {
                vstd::seq_lib::to_multiset_build(live_categories(rows@.take(i as int)), c);
            }
            insert_in_listing_order(&mut out, c);
        }
        i = i + 1;
    }
    proof {
        assert(rows@.take(n as int) =~= rows@);
    }
    out
}

/// Rewrites name, display order, parent and default flags of the category
/// `category_id` when it is active and not a system category; any other
/// target is left as it is, and `Ok` says whether a row changed. Fails with
/// `ForeignKeyViolation`, changing nothing, when the row would change and the
/// new parent does not exist.
pub fn update_category(db: &mut Ledger, category_id: i64, request: &CreateCategoryRequest) -> (r:
    Result<bool, StorageError>)
    ensures
        match r {
            Ok(affected) => affected == category_is_editable(old(db).categories@, category_id)
                && final(db).categories@ == updated_categories(
                old(db).categories@,
                category_id,
                *request,
            ) && (affected ==> parent_reference_holds(
                old(db).categories@,
                request.parent_category_id,
                category_id,
            )),
            Err(e) => e == StorageError::ForeignKeyViolation && category_is_editable(
                old(db).categories@,
                category_id,
            ) && !parent_reference_holds(
                old(db).categories@,
                request.parent_category_id,
                category_id,
            ) && final(db).categories@ == old(db).categories@,
        },
        final(db).accounts == old(db).accounts,
        final(db).transactions == old(db).transactions,
{
    proof {
        use_type_invariant(&db.categories);
    }
    let ghost before = db.categories@;
    match db.categories.position(category_id) {
        Some(i) => {
            if db.categories.rows[i].archived || db.categories.rows[i].is_system_category {
                proof {
                    assert(updated_categories(before, category_id, *request) =~= before);
                }
                Ok(false)
            } else {
                match request.parent_category_id {
                    Some(p) => {
                        if p != category_id && !db.categories.contains_id(p) {
                            return Err(StorageError::ForeignKeyViolation);
                        }
                    },
                    None => {},
                }
                let old_row = &db.categories.rows[i];
                let row = Category {
                    id: old_row.id,
                    name: request.name.clone(),
                    archived: old_row.archived,
                    created_at: old_row.created_at.clone(),
                    display_order: request.display_order,
                    parent_category_id: request.parent_category_id,
                    default_discretionary: request.default_discretionary,
                    default_fixed: request.default_fixed,
                    last_used_date: copy_text_option(&old_row.last_used_date),
                    is_system_category: old_row.is_system_category,
                };
                db.categories.set_row(i, row);
                proof {
                    assert(db.categories@ =~= updated_categories(before, category_id, *request));
                }
                Ok(true)
            }
        },
        None => {
            proof {
                assert(updated_categories(before, category_id, *request) =~= before);
            }
            Ok(false)
        },
    }
}

/// Archives the category `category_id` when it is active and not a system
/// category; any other target is left as it is. The result says whether a
/// row changed.
pub fn archive_category(db: &mut Ledger, category_id: i64) -> (affected: bool)
    ensures
        final(db).categories@ == archived_categories(old(db).categories@, category_id),
        affected == category_is_editable(old(db).categories@, category_id),
        final(db).accounts == old(db).accounts,
        final(db).transactions == old(db).transactions,
{
    proof {
        use_type_invariant(&db.categories);
    }
    let ghost before = db.categories@;
    match db.categories.position(category_id) {
        Some(i) => {
            if db.categories.rows[i].archived || db.categories.rows[i].is_system_category {
                proof {
                    assert(archived_categories(before, category_id) =~= before);
                }
                false
            } else {
                let mut row = copy_category(&db.categories.rows[i]);
                row.archived = true;
                db.categories.set_row(i, row);
                proof {
                    assert(db.categories@ =~= archived_categories(before, category_id));
                }
                true
            }
        },
        None => {
            proof {
                assert(archived_categories(before, category_id) =~= before);
            }
            false
        },
    }
}

} // verus!
