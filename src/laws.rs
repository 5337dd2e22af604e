//! Properties that hold across calls of the stores and the money codec.
use vstd::prelude::*;
use crate::accounts::{
    account_is_live,
    archived_accounts,
    live_accounts,
    AccountRow,
};
use crate::categories::{
    archived_categories,
    category_is_editable,
    category_rows_valid,
    is_seeded_system,
    is_seed_row,
    live_categories,
    seed_result,
    seeded_system_count,
    updated_categories,
    Category,
    CreateCategoryRequest,
};
use crate::money::{cents_of, decimal_of_cents, is_whole_cents, lemma_pow10_positive, pow10, same_amount, Decimal};

verus! {

/// An amount with at most two fractional digits survives the trip to cents
/// and back unchanged in value, as long as its cents fit in an `i64`.
pub proof fn lemma_cents_round_trip(v: Decimal)
    requires
        is_whole_cents(v),
        i64::MIN <= (v.units * 100) / pow10(v.scale as nat) <= i64::MAX,
    ensures
        same_amount(decimal_of_cents(cents_of(v)), v),
{
    let n = v.units * 100;
    let p = pow10(v.scale as nat);
    lemma_pow10_positive(v.scale as nat);
    let k = n / p;
    vstd::arithmetic::div_mod::lemma_fundamental_div_mod(n, p);
    assert(n == p * k);
    if n >= 0 {
        assert(2 * n + p == k * (2 * p) + p) by (nonlinear_arith)
            requires
                n == p * k,
        ;
        vstd::arithmetic::div_mod::lemma_fundamental_div_mod_converse(2 * n + p, 2 * p, k, p);
    } else {
        assert(-2 * n + p == (-k) * (2 * p) + p) by (nonlinear_arith)
            requires
                n == p * k,
        ;
        vstd::arithmetic::div_mod::lemma_fundamental_div_mod_converse(-2 * n + p, 2 * p, -k, p);
    }
    assert(cents_of(v) == k);
    assert(pow10(2) == 100) by {
        reveal_with_fuel(pow10, 3);
    }
    assert(k * p == v.units * 100) by (nonlinear_arith)
        requires
            n == p * k,
            n == v.units * 100,
    ;
}

/// Archiving an account a second time changes nothing, so the active
/// listing after the first archive stays as it is.
pub proof fn lemma_archive_account_idempotent(rows: Seq<AccountRow>, id: i64, first: String, second: String)
    ensures
        !account_is_live(archived_accounts(rows, id, first), id),
        archived_accounts(archived_accounts(rows, id, first), id, second) == archived_accounts(
            rows,
            id,
            first,
        ),
        live_accounts(archived_accounts(archived_accounts(rows, id, first), id, second))
            == live_accounts(archived_accounts(rows, id, first)),
{
    let once = archived_accounts(rows, id, first);
    assert(archived_accounts(once, id, second) =~= once);
}

/// Archiving a category a second time changes nothing, so the active listing
/// after the first archive stays as it is.
pub proof fn lemma_archive_category_idempotent(rows: Seq<Category>, id: i64)
    ensures
        !category_is_editable(archived_categories(rows, id), id),
        archived_categories(archived_categories(rows, id), id) == archived_categories(rows, id),
        live_categories(archived_categories(archived_categories(rows, id), id)) == live_categories(
            archived_categories(rows, id),
        ),
{
    let once = archived_categories(rows, id);
    assert(archived_categories(once, id) =~= once);
}

/// No update or archive, whatever its target and request, changes a system
/// category: its name, display order and system flag stay as they were.
pub proof fn lemma_system_category_protected(
    rows: Seq<Category>,
    i: int,
    id: i64,
    request: CreateCategoryRequest,
)
    requires
        0 <= i < rows.len(),
        rows[i].is_system_category,
    ensures
        updated_categories(rows, id, request)[i] == rows[i],
        archived_categories(rows, id)[i] == rows[i],
{
}

proof fn lemma_seeded_system_count_at_most_one(rows: Seq<Category>)
    requires
        category_rows_valid(rows),
    ensures
        seeded_system_count(rows) <= 1,
    decreases rows.len(),
{
    if rows.len() > 0 {
        let init = rows.drop_last();
        assert(category_rows_valid(init)) by {
            assert forall|i: int| 0 <= i < init.len() implies #[trigger] init[i] == rows[i] by {}
        }
        lemma_seeded_system_count_at_most_one(init);
        if is_seeded_system(rows.last()) {
            assert forall|i: int| 0 <= i < init.len() implies !is_seeded_system(#[trigger] init[i]) by {
                assert(init[i] == rows[i]);
                assert(rows[rows.len() - 1] == rows.last());
            }
            lemma_seeded_system_count_zero(init);
        }
    }
}

proof fn lemma_seeded_system_count_zero(rows: Seq<Category>)
    requires
        forall|i: int| 0 <= i < rows.len() ==> !is_seeded_system(#[trigger] rows[i]),
    ensures
        seeded_system_count(rows) == 0,
    decreases rows.len(),
{
    if rows.len() > 0 {
        let init = rows.drop_last();
        assert forall|i: int| 0 <= i < init.len() implies !is_seeded_system(#[trigger] init[i]) by {
            assert(init[i] == rows[i]);
        }
        lemma_seeded_system_count_zero(init);
        assert(rows[rows.len() - 1] == rows.last());
    }
}

/// Seeding twice leaves exactly one system category named "Uncategorized",
/// and the second seeding changes nothing.
pub proof fn lemma_seed_idempotent(
    before: Seq<Category>,
    once: Seq<Category>,
    twice: Seq<Category>,
    first: String,
    second: String,
)
    requires
        category_rows_valid(before),
        seed_result(before, once, first),
        seed_result(once, twice, second),
    ensures
        seeded_system_count(twice) == 1,
        twice == once,
{
    if seeded_system_count(before) > 0 {
        lemma_seeded_system_count_at_most_one(before);
    } else {
        assert(once.drop_last() == before);
        assert(is_seed_row(once.last(), once.last().id, first));
        assert(is_seeded_system(once.last()));
        assert(seeded_system_count(once) == 1);
    }
}

} // verus!
