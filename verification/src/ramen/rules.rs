//! Scenario rules for making a bowl: which hidden-flavour uses are legal.
//!
//! A bowl of a region needs `recipe[i]` feelings of each kind `i`. Hidden
//! flavour can stand in for regular feelings: a *target* `t` says how many
//! regular feelings of each kind are replaced. A target is legal when
//! `max(0, recipe[i] - stock[i]) <= t[i] <= recipe[i]` for every kind (the rest
//! of the recipe is paid from stock, and nothing beyond the recipe is replaced)
//! and the replacements in total do not exceed the hidden flavour stock.

use vstd::prelude::*;

use super::RamenState;

verus! {

/// Errors of the scenario rules.
#[derive(Debug, Clone, Copy, PartialEq, Eq, Structural)]
pub enum RulesError {
    /// The region id has no entry in the recipe table.
    UnknownRegion(usize),
}

/// Lowest number of regular feelings of one kind that hidden flavour must replace.
pub open spec fn min_replace(recipe_i: int, stock_i: int) -> int {
    if recipe_i - stock_i > 0 { recipe_i - stock_i } else { 0 }
}

/// Total number of replacements of a target.
pub open spec fn target_sum(t: [i32; 3]) -> int {
    t[0] + t[1] + t[2]
}

/// Whether `t` is a legal hidden-flavour use for `recipe` with the given stocks.
pub open spec fn valid_target(recipe: [i32; 3], stock: [i32; 3], special: i32, t: [i32; 3]) -> bool {
    &&& min_replace(recipe[0] as int, stock[0] as int) <= t[0] <= recipe[0]
    &&& min_replace(recipe[1] as int, stock[1] as int) <= t[1] <= recipe[1]
    &&& min_replace(recipe[2] as int, stock[2] as int) <= t[2] <= recipe[2]
    &&& target_sum(t) <= special
}

/// Candidate order: by total replacements, then by the A and B replacements.
pub open spec fn target_lt(a: [i32; 3], b: [i32; 3]) -> bool {
    ||| target_sum(a) < target_sum(b)
    ||| (target_sum(a) == target_sum(b) && a[0] < b[0])
    ||| (target_sum(a) == target_sum(b) && a[0] == b[0] && a[1] < b[1])
}

/// A sequence of targets in strictly increasing candidate order.
pub open spec fn targets_sorted(s: Seq<[i32; 3]>) -> bool {
    forall|i: int, j: int| 0 <= i < j < s.len() ==> target_lt(#[trigger] s[i], #[trigger] s[j])
}

/// The sequence lists exactly the legal targets, in candidate order.
pub open spec fn is_target_listing(
    recipe: [i32; 3],
    stock: [i32; 3],
    special: i32,
    s: Seq<[i32; 3]>,
) -> bool {
    &&& targets_sorted(s)
    &&& forall|t: [i32; 3]| s.contains(t) <==> valid_target(recipe, stock, special, t)
}

/// All legal targets for `recipe`, in candidate order (there is exactly one such listing).
pub open spec fn special_targets(recipe: [i32; 3], stock: [i32; 3], special: i32) -> Seq<[i32; 3]> {
    choose|s: Seq<[i32; 3]>| is_target_listing(recipe, stock, special, s)
}

/// Whether a bowl of `region` can be made now (some legal target exists).
pub open spec fn region_makeable(state: RamenState, recipes: Seq<[i32; 3]>, region: usize) -> bool {
    &&& region < recipes.len()
    &&& exists|t: [i32; 3]| valid_target(recipes[region as int], state.feeling_stock, state.special_feeling, t)
}

/// The legal targets of a region, or nothing when the region has no recipe.
pub open spec fn region_targets(state: RamenState, recipes: Seq<[i32; 3]>, region: usize) -> Seq<[i32; 3]> {
    if region < recipes.len() {
        special_targets(recipes[region as int], state.feeling_stock, state.special_feeling)
    } else {
        Seq::empty()
    }
}

proof fn lemma_target_lt_total(a: [i32; 3], b: [i32; 3])
    ensures
        a == b || target_lt(a, b) || target_lt(b, a),
        !(target_lt(a, b) && target_lt(b, a)),
        !target_lt(a, a),
{
    if !target_lt(a, b) && !target_lt(b, a) {
        assert(a[2] == b[2]);
        assert(a =~= b);
    }
}

proof fn lemma_sorted_tail(s: Seq<[i32; 3]>)
    requires
        targets_sorted(s),
        s.len() > 0,
    ensures
        targets_sorted(s.drop_first()),
{
    assert forall|i: int, j: int| 0 <= i < j < s.drop_first().len() implies target_lt(
        #[trigger] s.drop_first()[i],
        #[trigger] s.drop_first()[j],
    ) by {
        assert(s.drop_first()[i] == s[i + 1]);
        assert(s.drop_first()[j] == s[j + 1]);
    }
}

/// Two sorted listings with the same elements are the same sequence.
proof fn lemma_sorted_listing_unique(s1: Seq<[i32; 3]>, s2: Seq<[i32; 3]>)
    requires
        targets_sorted(s1),
        targets_sorted(s2),
        forall|t: [i32; 3]| s1.contains(t) <==> s2.contains(t),
    ensures
        s1 == s2,
    decreases s1.len(),
{
    if s1.len() == 0 {
        if s2.len() > 0 {
            assert(s2.contains(s2[0]));
        }
        assert(s1 =~= s2);
    } else {
        assert(s1.contains(s1[0]));
        assert(s2.len() > 0);
        assert(s2.contains(s2[0]));
        let k1 = choose|k: int| 0 <= k < s2.len() && s2[k] == s1[0];
        let k2 = choose|k: int| 0 <= k < s1.len() && s1[k] == s2[0];
        if s1[0] != s2[0] {
            lemma_target_lt_total(s1[0], s2[0]);
            if k1 > 0 {
                assert(target_lt(s2[0], s2[k1]));
            }
            if k2 > 0 {
                assert(target_lt(s1[0], s1[k2]));
            }
            lemma_target_lt_total(s1[0], s1[0]);
            lemma_target_lt_total(s2[0], s2[0]);
        }
        assert(s1[0] == s2[0]);
        let t1 = s1.drop_first();
        let t2 = s2.drop_first();
        lemma_sorted_tail(s1);
        lemma_sorted_tail(s2);
        assert forall|t: [i32; 3]| t1.contains(t) <==> t2.contains(t) by {
            if t1.contains(t) {
                let k = choose|k: int| 0 <= k < t1.len() && t1[k] == t;
                assert(s1[k + 1] == t);
                assert(target_lt(s1[0], s1[k + 1]));
                lemma_target_lt_total(t, t);
                assert(s1.contains(t));
                assert(s2.contains(t));
                let m = choose|m: int| 0 <= m < s2.len() && s2[m] == t;
                assert(m != 0);
                assert(t2[m - 1] == t);
            }
            if t2.contains(t) {
                let k = choose|k: int| 0 <= k < t2.len() && t2[k] == t;
                assert(s2[k + 1] == t);
                assert(target_lt(s2[0], s2[k + 1]));
                lemma_target_lt_total(t, t);
                assert(s2.contains(t));
                assert(s1.contains(t));
                let m = choose|m: int| 0 <= m < s1.len() && s1[m] == t;
                assert(m != 0);
                assert(t1[m - 1] == t);
            }
        }
        lemma_sorted_listing_unique(t1, t2);
        assert(s1 =~= seq![s1[0]] + t1);
        assert(s2 =~= seq![s2[0]] + t2);
    }
}

/// Lists the legal targets of a recipe, in candidate order.
fn enumerate_targets(recipe: [i32; 3], stock: [i32; 3], special: i32) -> (v: Vec<[i32; 3]>)
    ensures
        v@ == special_targets(recipe, stock, special),
        is_target_listing(recipe, stock, special, v@),
{
    let lo0: i64 = if (recipe[0] as i64) - (stock[0] as i64) > 0 { (recipe[0] as i64) - (stock[0] as i64) } else { 0 };
    let lo1: i64 = if (recipe[1] as i64) - (stock[1] as i64) > 0 { (recipe[1] as i64) - (stock[1] as i64) } else { 0 };
    let lo2: i64 = if (recipe[2] as i64) - (stock[2] as i64) > 0 { (recipe[2] as i64) - (stock[2] as i64) } else { 0 };
    let hi0: i64 = recipe[0] as i64;
    let hi1: i64 = recipe[1] as i64;
    let hi2: i64 = recipe[2] as i64;
    let bound: i64 = if (special as i64) < hi0 + hi1 + hi2 { special as i64 } else { hi0 + hi1 + hi2 };
    let mut out: Vec<[i32; 3]> = Vec::new();
    let mut total: i64 = lo0 + lo1 + lo2;
    while total <= bound
        invariant
            lo0 == min_replace(recipe[0] as int, stock[0] as int),
            lo1 == min_replace(recipe[1] as int, stock[1] as int),
            lo2 == min_replace(recipe[2] as int, stock[2] as int),
            hi0 == recipe[0],
            hi1 == recipe[1],
            hi2 == recipe[2],
            bound <= special,
            bound <= hi0 + hi1 + hi2,
            total >= lo0 + lo1 + lo2,
            targets_sorted(out@),
            forall|k: int| 0 <= k < out@.len() ==> valid_target(recipe, stock, special, #[trigger] out@[k]) && target_sum(out@[k]) < total,
            forall|t: [i32; 3]| valid_target(recipe, stock, special, t) && target_sum(t) < total ==> out@.contains(t),
        decreases bound - total + 1,
    {
        let amax: i64 = if hi0 < total - lo1 - lo2 { hi0 } else { total - lo1 - lo2 };
        let mut a: i64 = lo0;
        while a <= amax
            invariant
                lo0 == min_replace(recipe[0] as int, stock[0] as int),
                lo1 == min_replace(recipe[1] as int, stock[1] as int),
                lo2 == min_replace(recipe[2] as int, stock[2] as int),
                hi0 == recipe[0],
                hi1 == recipe[1],
                hi2 == recipe[2],
                total <= bound,
                bound <= special,
                bound <= hi0 + hi1 + hi2,
                amax <= hi0,
                amax <= total - lo1 - lo2,
                lo0 <= a,
                targets_sorted(out@),
                forall|k: int|
                    0 <= k < out@.len() ==> valid_target(recipe, stock, special, #[trigger] out@[k]) && (target_sum(out@[k]) < total || (
                    target_sum(out@[k]) == total && out@[k][0] < a)),
                forall|t: [i32; 3]|
                    valid_target(recipe, stock, special, t) && (target_sum(t) < total || (target_sum(t) == total && t[0] < a))
                        ==> out@.contains(t),
            decreases amax - a + 1,
        {
            let bmax: i64 = if hi1 < total - a - lo2 { hi1 } else { total - a - lo2 };
            let mut b: i64 = lo1;
            while b <= bmax
                invariant
                    lo0 == min_replace(recipe[0] as int, stock[0] as int),
                    lo1 == min_replace(recipe[1] as int, stock[1] as int),
                    lo2 == min_replace(recipe[2] as int, stock[2] as int),
                    hi0 == recipe[0],
                    hi1 == recipe[1],
                    hi2 == recipe[2],
                    total <= bound,
                    bound <= special,
                    bound <= hi0 + hi1 + hi2,
                    lo0 <= a <= amax,
                    amax <= hi0,
                    amax <= total - lo1 - lo2,
                    bmax <= hi1,
                    bmax <= total - a - lo2,
                    lo1 <= b,
                    targets_sorted(out@),
                    forall|k: int|
                        0 <= k < out@.len() ==> valid_target(recipe, stock, special, #[trigger] out@[k]) && (target_sum(out@[k]) < total || (
                        target_sum(out@[k]) == total && out@[k][0] < a) || (target_sum(out@[k]) == total
                            && out@[k][0] == a && out@[k][1] < b)),
                    forall|t: [i32; 3]|
                        valid_target(recipe, stock, special, t) && (target_sum(t) < total || (target_sum(t) == total && t[0] < a) || (
                        target_sum(t) == total && t[0] == a && t[1] < b)) ==> out@.contains(t),
                decreases bmax - b + 1,
            {
                let c: i64 = total - a - b;
                if lo2 <= c && c <= hi2 {
                    let t: [i32; 3] = [a as i32, b as i32, c as i32];
                    assert(valid_target(recipe, stock, special, t));
                    let ghost old_out = out@;
                    out.push(t);
                    assert forall|i: int, j: int| 0 <= i < j < out@.len() implies target_lt(
                        #[trigger] out@[i],
                        #[trigger] out@[j],
                    ) by {
                        if j == out@.len() - 1 {
                            assert(out@[i] == old_out[i]);
                        } else {
                            assert(out@[i] == old_out[i]);
                            assert(out@[j] == old_out[j]);
                        }
                    }
                    assert forall|u: [i32; 3]|
                        valid_target(recipe, stock, special, u) && (target_sum(u) < total || (target_sum(u) == total && u[0] < a) || (
                        target_sum(u) == total && u[0] == a && u[1] < b + 1)) implies out@.contains(u) by {
                        if target_sum(u) == total && u[0] == a && u[1] == b {
                            assert(u =~= t);
                            assert(out@[out@.len() - 1] == t);
                        } else {
                            assert(old_out.contains(u));
                            let k = choose|k: int| 0 <= k < old_out.len() && old_out[k] == u;
                            assert(out@[k] == u);
                        }
                    }
                } else {
                    assert forall|u: [i32; 3]|
                        valid_target(recipe, stock, special, u) && (target_sum(u) < total || (target_sum(u) == total && u[0] < a) || (
                        target_sum(u) == total && u[0] == a && u[1] < b + 1)) implies out@.contains(u) by {
                        if target_sum(u) == total && u[0] == a && u[1] == b {
                            assert(u[2] == c);
                            assert(false);
                        }
                    }
                }
                b = b + 1;
            }
            assert forall|u: [i32; 3]|
                valid_target(recipe, stock, special, u) && (target_sum(u) < total || (target_sum(u) == total && u[0] < a + 1))
                    implies out@.contains(u) by {
                if target_sum(u) == total && u[0] == a {
                    assert(u[1] <= hi1);
                    assert(u[1] <= total - a - lo2);
                }
            }
            a = a + 1;
        }
        assert forall|u: [i32; 3]| valid_target(recipe, stock, special, u) && target_sum(u) < total + 1 implies out@.contains(u) by {
            if target_sum(u) == total {
                assert(u[0] <= hi0);
                assert(u[0] <= total - lo1 - lo2);
            }
        }
        total = total + 1;
    }
    assert forall|t: [i32; 3]| out@.contains(t) <==> valid_target(recipe, stock, special, t) by {
        if out@.contains(t) {
            let k = choose|k: int| 0 <= k < out@.len() && out@[k] == t;
            assert(valid_target(recipe, stock, special, out@[k]));
        }
        if valid_target(recipe, stock, special, t) {
            assert(valid_target(recipe, stock, special, t));
            assert(target_sum(t) <= bound);
        }
    }
    assert(is_target_listing(recipe, stock, special, out@));
    let ghost chosen = special_targets(recipe, stock, special);
    assert(is_target_listing(recipe, stock, special, chosen));
    proof {
        lemma_sorted_listing_unique(out@, chosen);
    }
    out
}

/// Lists the legal hidden-flavour uses for a bowl of `region_id`, in candidate
/// order (fewest replacements first). `recipes[r]` is the recipe of region `r`.
pub fn list_special_targets_for(state: &RamenState, region_id: usize, recipes: &[[i32; 3]]) -> (r: Result<
    Vec<[i32; 3]>,
    RulesError,
>)
    ensures
        region_id >= recipes@.len() ==> r == Err::<Vec<[i32; 3]>, RulesError>(RulesError::UnknownRegion(region_id)),
        region_id < recipes@.len() ==> r is Ok && r->Ok_0@ == special_targets(
            recipes@[region_id as int],
            state.feeling_stock,
            state.special_feeling,
        ) && is_target_listing(
            recipes@[region_id as int],
            state.feeling_stock,
            state.special_feeling,
            r->Ok_0@,
        ),
{
    if region_id >= recipes.len() {
        return Err(RulesError::UnknownRegion(region_id));
    }
    Ok(enumerate_targets(recipes[region_id], state.feeling_stock, state.special_feeling))
}

} // verus!
