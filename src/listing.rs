//! The order of default listings: by display order (absent first, then
//! ascending), ties broken by name.
use vstd::prelude::*;
use crate::text::{
    lemma_text_lt_asymmetric,
    lemma_text_lt_irreflexive,
    lemma_text_lt_total,
    lemma_text_lt_transitive,
    text_less,
    text_lt,
};

verus! {

/// Display order `a` sorts strictly before `b`; an absent order sorts first.
pub open spec fn order_lt(a: Option<i32>, b: Option<i32>) -> bool {
    match (a, b) {
        (None, Some(_)) => true,
        (Some(x), Some(y)) => x < y,
        _ => false,
    }
}

/// The entry keyed `(ao, an)` sorts strictly before the one keyed `(bo, bn)`.
pub open spec fn listing_lt(ao: Option<i32>, an: Seq<char>, bo: Option<i32>, bn: Seq<char>) -> bool {
    order_lt(ao, bo) || (ao == bo && text_lt(an, bn))
}

pub proof fn lemma_listing_lt_asymmetric(ao: Option<i32>, an: Seq<char>, bo: Option<i32>, bn: Seq<char>)
    ensures
        !(listing_lt(ao, an, bo, bn) && listing_lt(bo, bn, ao, an)),
{
    lemma_text_lt_asymmetric(an, bn);
}

/// Not sorting after is transitive: the keys form a total preorder.
pub proof fn lemma_listing_le_transitive(
    ao: Option<i32>,
    an: Seq<char>,
    bo: Option<i32>,
    bn: Seq<char>,
    co: Option<i32>,
    cn: Seq<char>,
)
    requires
        !listing_lt(bo, bn, ao, an),
        !listing_lt(co, cn, bo, bn),
    ensures
        !listing_lt(co, cn, ao, an),
{
    lemma_text_lt_total(an, bn);
    lemma_text_lt_total(bn, cn);
    lemma_text_lt_total(an, cn);
    lemma_text_lt_asymmetric(an, cn);
    if ao == bo && bo == co && text_lt(an, bn) && text_lt(bn, cn) {
        lemma_text_lt_transitive(an, bn, cn);
    }
    if ao == bo && bo == co && text_lt(cn, an) {
        if text_lt(an, bn) {
            lemma_text_lt_transitive(cn, an, bn);
            lemma_text_lt_asymmetric(cn, bn);
        } else if text_lt(bn, cn) {
            lemma_text_lt_transitive(bn, cn, an);
            lemma_text_lt_asymmetric(an, bn);
        } else {
            lemma_text_lt_irreflexive(an);
            lemma_text_lt_irreflexive(bn);
            if an == bn {
                lemma_text_lt_asymmetric(bn, cn);
            }
        }
    }
}

/// Whether the entry keyed `(ao, an)` sorts strictly before the one keyed `(bo, bn)`.
pub fn listed_before(ao: Option<i32>, an: &str, bo: Option<i32>, bn: &str) -> (r: bool)
    ensures
        r == listing_lt(ao, an@, bo, bn@),
{
    match (ao, bo) {
        (None, Some(_)) => true,
        (Some(x), Some(y)) => {
            if x < y {
                true
            } else if x == y {
                text_less(an, bn)
            } else {
                false
            }
        },
        (None, None) => text_less(an, bn),
        (Some(_), None) => false,
    }
}

} // verus!
