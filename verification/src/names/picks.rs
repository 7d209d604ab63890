//! Which claim a healthbar gets: the top claim where one is high enough, otherwise one drawn by
//! weight from the highest tier that has any.
use vstd::prelude::*;

use crate::names::{ClaimModel, NameClaim};

verus! {

/// The claims as the rules see them.
pub open spec fn claim_models(claims: Seq<NameClaim>) -> Seq<ClaimModel> {
    claims.map_values(|c: NameClaim| c@)
}

/// Whether a claim can still be given to a healthbar.
pub open spec fn usable(c: ClaimModel) -> bool {
    c.amount > 0 && !c.ignore
}

/// Whether a claim is usable with an amount of at least `lo` and, where there is a limit, below it.
pub open spec fn in_range(c: ClaimModel, lo: u32, hi: Option<u32>) -> bool {
    &&& usable(c)
    &&& c.amount >= lo
    &&& hi matches Some(h) ==> c.amount < h
}

/// The smallest amount at which the top claim is simply taken.
pub open spec fn min_for_top(tiers: Seq<u32>) -> u32 {
    if tiers.len() == 0 {
        0
    } else {
        tiers.last()
    }
}

/// The position of the highest usable claim of at least `lo`; of equal ones the last.
pub open spec fn top_index(claims: Seq<ClaimModel>, lo: u32) -> Option<int>
    decreases claims.len(),
{
    if claims.len() == 0 {
        None
    } else {
        let before = top_index(claims.drop_last(), lo);
        let c = claims.last();
        if in_range(c, lo, None) && (before matches Some(i) ==> claims[i].amount <= c.amount) {
            Some(claims.len() - 1)
        } else {
            before
        }
    }
}

/// The positions, in order, of the usable claims of at least `lo` and below `hi`.
pub open spec fn range_pool(claims: Seq<ClaimModel>, lo: u32, hi: u32) -> Seq<int>
    decreases claims.len(),
{
    if claims.len() == 0 {
        seq![]
    } else {
        let before = range_pool(claims.drop_last(), lo, hi);
        if in_range(claims.last(), lo, Some(hi)) {
            before.push(claims.len() - 1)
        } else {
            before
        }
    }
}

/// The claims of the highest tier below the `k`-th bound that has any.
pub open spec fn tier_pool(claims: Seq<ClaimModel>, tiers: Seq<u32>, k: int) -> Seq<int>
    decreases k,
{
    if k <= 0 {
        seq![]
    } else {
        let pool = range_pool(claims, tiers[k - 1], tiers[k]);
        if pool.len() > 0 {
            pool
        } else {
            tier_pool(claims, tiers, k - 1)
        }
    }
}

/// How the next claim is found.
#[verifier::ext_equal]
pub enum PickRule {
    /// The claim at this position is taken.
    Top(int),
    /// One of the claims at these positions is drawn.
    Draw(Seq<int>),
    /// There is no claim to take.
    Nothing,
}

/// How the next claim is found among these claims with these tier bounds.
pub open spec fn pick_rule(claims: Seq<ClaimModel>, tiers: Seq<u32>) -> PickRule {
    match top_index(claims, min_for_top(tiers)) {
        Some(i) => PickRule::Top(i),
        None => {
            let pool = tier_pool(claims, tiers, tiers.len() - 1);
            if pool.len() > 0 {
                PickRule::Draw(pool)
            } else {
                PickRule::Nothing
            }
        },
    }
}

/// The sum of the amounts at the given positions.
pub open spec fn pool_weight(claims: Seq<ClaimModel>, pool: Seq<int>) -> nat
    decreases pool.len(),
{
    if pool.len() == 0 {
        0
    } else {
        pool_weight(claims, pool.drop_last()) + claims[pool.last()].amount as nat
    }
}

/// The claim that is taken when a draw, where one is made, gives the `draw`-th of its pool.
pub open spec fn picked(claims: Seq<ClaimModel>, tiers: Seq<u32>, draw: int) -> Option<int> {
    match pick_rule(claims, tiers) {
        PickRule::Top(i) => Some(i),
        PickRule::Draw(pool) => Some(pool[draw]),
        PickRule::Nothing => None,
    }
}

/// Whether `draw` is a possible outcome of the draw, where one is made.
pub open spec fn possible_draw(claims: Seq<ClaimModel>, tiers: Seq<u32>, draw: int) -> bool {
    pick_rule(claims, tiers) matches PickRule::Draw(pool) ==> 0 <= draw < pool.len()
}

/// The weights of a draw, where one is made, add up to a number the draw can count to.
pub open spec fn drawable(claims: Seq<ClaimModel>, tiers: Seq<u32>) -> bool {
    pick_rule(claims, tiers) matches PickRule::Draw(pool) ==> pool_weight(claims, pool) <= u32::MAX
}

/// The top claim is usable and high enough, no such claim is higher, and none behind it is as
/// high; there is none only where no claim is usable and high enough.
pub proof fn lemma_top_index(claims: Seq<ClaimModel>, lo: u32)
    ensures
        match top_index(claims, lo) {
            Some(i) => {
                &&& 0 <= i < claims.len()
                &&& in_range(claims[i], lo, None)
                &&& forall|j: int|
                    0 <= j < claims.len() && in_range(#[trigger] claims[j], lo, None)
                        ==> claims[j].amount < claims[i].amount || (claims[j].amount
                        == claims[i].amount && j <= i)
            },
            None => forall|j: int|
                0 <= j < claims.len() ==> !in_range(#[trigger] claims[j], lo, None),
        },
    decreases claims.len(),
{
    if claims.len() > 0 {
        let rest = claims.drop_last();
        lemma_top_index(rest, lo);
        assert forall|j: int| 0 <= j < rest.len() implies rest[j] == claims[j] by {}
        match top_index(claims, lo) {
            Some(i) => {
                assert forall|j: int|
                    0 <= j < claims.len() && in_range(#[trigger] claims[j], lo, None) implies claims[j].amount
                    < claims[i].amount || (claims[j].amount == claims[i].amount && j <= i) by {
                    if j < rest.len() {
                        assert(in_range(rest[j], lo, None));
                    }
                }
            },
            None => {
                assert forall|j: int| 0 <= j < claims.len() implies !in_range(
                    #[trigger] claims[j],
                    lo,
                    None,
                ) by {
                    if j < rest.len() {
                        assert(!in_range(rest[j], lo, None));
                    }
                }
            },
        }
    }
}

/// The pool of a range holds exactly the positions of the claims in that range, in order.
pub proof fn lemma_range_pool(claims: Seq<ClaimModel>, lo: u32, hi: u32)
    ensures
        forall|k: int|
            0 <= k < range_pool(claims, lo, hi).len() ==> 0 <= #[trigger] range_pool(
                claims,
                lo,
                hi,
            )[k] < claims.len() && in_range(claims[range_pool(claims, lo, hi)[k]], lo, Some(hi)),
        forall|j: int|
            0 <= j < claims.len() && in_range(#[trigger] claims[j], lo, Some(hi)) ==> range_pool(
                claims,
                lo,
                hi,
            ).contains(j),
        forall|a: int, b: int|
            0 <= a < b < range_pool(claims, lo, hi).len() ==> range_pool(claims, lo, hi)[a]
                < range_pool(claims, lo, hi)[b],
    decreases claims.len(),
{
    if claims.len() > 0 {
        let rest = claims.drop_last();
        lemma_range_pool(rest, lo, hi);
        let before = range_pool(rest, lo, hi);
        let pool = range_pool(claims, lo, hi);
        assert forall|k: int| 0 <= k < pool.len() implies 0 <= #[trigger] pool[k] < claims.len()
            && in_range(claims[pool[k]], lo, Some(hi)) by {
            if k < before.len() {
                assert(pool[k] == before[k]);
                assert(rest[before[k]] == claims[before[k]]);
            }
        }
        assert forall|j: int|
            0 <= j < claims.len() && in_range(#[trigger] claims[j], lo, Some(hi)) implies pool.contains(
        j) by {
            if j < rest.len() {
                assert(in_range(rest[j], lo, Some(hi)));
                let k = choose|k: int| 0 <= k < before.len() && before[k] == j;
                assert(pool[k] == j);
            } else {
                assert(pool[pool.len() - 1] == j);
            }
        }
        assert forall|a: int, b: int| 0 <= a < b < pool.len() implies pool[a] < pool[b] by {
            assert(pool[a] == before[a]);
            if b < before.len() {
                assert(pool[b] == before[b]);
            }
        }
    }
}

/// The pool below the `k`-th bound is that of one tier: every claim in it is in that tier, and
/// no claim is in a higher tier below the bound. It is empty only where no claim is in any.
pub proof fn lemma_tier_pool(claims: Seq<ClaimModel>, tiers: Seq<u32>, k: int)
    requires
        k < tiers.len(),
    ensures
        ({
            let pool = tier_pool(claims, tiers, k);
            if pool.len() > 0 {
                exists|t: int|
                    1 <= t <= k && pool == #[trigger] range_pool(claims, tiers[t - 1], tiers[t])
                        && forall|u: int|
                        t < u <= k ==> (#[trigger] range_pool(claims, tiers[u - 1], tiers[u])).len()
                            == 0
            } else {
                forall|u: int|
                    1 <= u <= k ==> (#[trigger] range_pool(claims, tiers[u - 1], tiers[u])).len()
                        == 0
            }
        }),
        forall|j: int|
            0 <= j < tier_pool(claims, tiers, k).len() ==> 0 <= #[trigger] tier_pool(
                claims,
                tiers,
                k,
            )[j] < claims.len() && usable(claims[tier_pool(claims, tiers, k)[j]]),
    decreases k,
{
    if k > 0 {
        lemma_tier_pool(claims, tiers, k - 1);
        lemma_range_pool(claims, tiers[k - 1], tiers[k]);
    }
}

/// Whatever is picked is a usable claim.
pub proof fn lemma_picked_usable(claims: Seq<ClaimModel>, tiers: Seq<u32>, draw: int)
    requires
        possible_draw(claims, tiers, draw),
    ensures
        picked(claims, tiers, draw) matches Some(i) ==> 0 <= i < claims.len() && usable(claims[i]),
{
    lemma_top_index(claims, min_for_top(tiers));
    if tiers.len() > 0 {
        lemma_tier_pool(claims, tiers, tiers.len() - 1);
    }
}

/// Without tiers the highest usable claim is taken, and a claim is found whenever one is usable.
pub proof fn lemma_no_tiers_take_top(claims: Seq<ClaimModel>, draw: int)
    ensures
        picked(claims, seq![], draw) == top_index(claims, 0),
        picked(claims, seq![], draw) is None <==> forall|j: int|
            0 <= j < claims.len() ==> !usable(#[trigger] claims[j]),
{
    lemma_top_index(claims, 0);
    assert(forall|j: int|
        0 <= j < claims.len() ==> in_range(#[trigger] claims[j], 0, None) == usable(claims[j]));
}

/// How the next claim is found.
pub enum Pick {
    Top(usize),
    Draw(Vec<usize>),
    Nothing,
}

impl View for Pick {
    type V = PickRule;

    open spec fn view(&self) -> PickRule {
        match self {
            Pick::Top(i) => PickRule::Top(*i as int),
            Pick::Draw(pool) => PickRule::Draw(pool@.map_values(|i: usize| i as int)),
            Pick::Nothing => PickRule::Nothing,
        }
    }
}

fn find_top(claims: &Vec<NameClaim>, lo: u32) -> (r: Option<usize>)
    ensures
        match r {
            Some(i) => top_index(claim_models(claims@), lo) == Some(i as int),
            None => top_index(claim_models(claims@), lo) is None,
        },
{
    let ghost models = claim_models(claims@);
    let mut top: Option<usize> = None;
    let mut k: usize = 0;
    while k < claims.len()
        invariant
            k <= claims@.len(),
            models == claim_models(claims@),
            match top {
                Some(i) => i < k && top_index(models.take(k as int), lo) == Some(i as int),
                None => top_index(models.take(k as int), lo) is None,
            },
        decreases claims@.len() - k,
    {
        assert(models.take(k + 1).drop_last() =~= models.take(k as int));
        assert(models.take(k + 1).last() == claims@[k as int]@);
        let claim = &claims[k];
        if claim.is_usable() && claim.amount >= lo {
            match top {
                Some(i) => {
                    assert(models.take(k + 1)[i as int] == claims@[i as int]@);
                    if claims[i].amount <= claim.amount {
                        top = Some(k);
                    }
                },
                None => {
                    top = Some(k);
                },
            }
        }
        k = k + 1;
    }
    assert(models.take(models.len() as int) =~= models);
    top
}

fn find_pool(claims: &Vec<NameClaim>, lo: u32, hi: u32) -> (r: Vec<usize>)
    ensures
        r@.map_values(|i: usize| i as int) == range_pool(claim_models(claims@), lo, hi),
{
    let ghost models = claim_models(claims@);
    let mut pool: Vec<usize> = Vec::new();
    let mut k: usize = 0;
    assert(pool@.map_values(|i: usize| i as int) =~= range_pool(models.take(0), lo, hi));
    while k < claims.len()
        invariant
            k <= claims@.len(),
            models == claim_models(claims@),
            pool@.map_values(|i: usize| i as int) == range_pool(models.take(k as int), lo, hi),
        decreases claims@.len() - k,
    {
        assert(models.take(k + 1).drop_last() =~= models.take(k as int));
        assert(models.take(k + 1).last() == claims@[k as int]@);
        let ghost before = pool@;
        let claim = &claims[k];
        if claim.is_usable() && claim.amount >= lo && claim.amount < hi {
            pool.push(k);
            assert(pool@.map_values(|i: usize| i as int) =~= before.map_values(
                |i: usize| i as int,
            ).push(k as int));
        }
        k = k + 1;
    }
    assert(models.take(models.len() as int) =~= models);
    pool
}

/// How the next claim is found among these claims with these tier bounds.
pub fn plan_pick(claims: &Vec<NameClaim>, tiers: &Vec<u32>) -> (r: Pick)
    ensures
        r@ == pick_rule(claim_models(claims@), tiers@),
{
    let ghost models = claim_models(claims@);
    let lo: u32 = if tiers.len() == 0 {
        0
    } else {
        tiers[tiers.len() - 1]
    };
    match find_top(claims, lo) {
        Some(i) => Pick::Top(i),
        None => {
            let mut k: usize = tiers.len();
            while k > 1
                invariant
                    k <= tiers@.len(),
                    models == claim_models(claims@),
                    top_index(models, min_for_top(tiers@)) is None,
                    tier_pool(models, tiers@, k - 1) == tier_pool(
                        models,
                        tiers@,
                        tiers@.len() - 1,
                    ),
                decreases k,
            {
                let pool = find_pool(claims, tiers[k - 2], tiers[k - 1]);
                if pool.len() > 0 {
                    return Pick::Draw(pool);
                }
                k = k - 1;
            }
            Pick::Nothing
        },
    }
}

/// The amounts of the claims at the given positions.
pub fn pool_amounts(claims: &Vec<NameClaim>, pool: &Vec<usize>) -> (r: Vec<u32>)
    requires
        forall|k: int| 0 <= k < pool@.len() ==> #[trigger] pool@[k] < claims@.len(),
    ensures
        r@.len() == pool@.len(),
        forall|k: int| 0 <= k < pool@.len() ==> #[trigger] r@[k] == claims@[pool@[k] as int].amount,
{
    let mut out: Vec<u32> = Vec::new();
    let mut k: usize = 0;
    while k < pool.len()
        invariant
            k <= pool@.len(),
            out@.len() == k,
            forall|k: int| 0 <= k < pool@.len() ==> #[trigger] pool@[k] < claims@.len(),
            forall|j: int| 0 <= j < k ==> #[trigger] out@[j] == claims@[pool@[j] as int].amount,
        decreases pool@.len() - k,
    {
        out.push(claims[pool[k]].amount);
        k = k + 1;
    }
    out
}

} // verus!
