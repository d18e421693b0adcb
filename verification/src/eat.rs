use vstd::prelude::*;

use crate::food::Food;

verus! {

/// What a boid knows about one piece of food during a meal.
///
/// Squared distances are carried as order keys: `Some(k)` for a number,
/// where a smaller key means a smaller distance, and `None` for a
/// quantity that compares as neither smaller nor larger than anything.
#[derive(Clone, Copy, Debug)]
pub struct FoodSighting {
    /// What kind of food lies there.
    pub kind: Food,
    /// Whether the boid touches it, and so eats it this frame.
    pub touching: bool,
    /// Order key of the squared distance from the boid to the food.
    pub dist2: Option<u32>,
}

/// The outcome of a meal: what is eaten and what the boid steers toward.
///
/// All indices refer to the food list as it was before anything was eaten.
#[derive(Debug)]
pub struct EatPlan {
    /// Indices of the pieces eaten, in increasing order.
    pub eaten: Vec<usize>,
    /// The apple the boid is drawn to, if it perceives one.
    pub nearest_apple: Option<usize>,
    /// The poison the boid reacts to, if it perceives one.
    pub nearest_poison: Option<usize>,
}

/// `a` is strictly smaller than `b`; a missing key is never smaller nor larger.
pub open spec fn key_lt(a: Option<u32>, b: Option<u32>) -> bool {
    &&& a is Some
    &&& b is Some
    &&& a->0 < b->0
}

/// A sighting the boid may steer toward: of the given kind, not eaten,
/// and closer than the perception reach.
pub open spec fn is_candidate(x: FoodSighting, kind: Food, reach2: Option<u32>) -> bool {
    &&& !x.touching
    &&& x.kind == kind
    &&& key_lt(x.dist2, reach2)
}

/// Among the first `n` sightings, `j` is the nearest candidate, and the first
/// one at that distance.
pub open spec fn is_nearest_among(
    s: Seq<FoodSighting>,
    kind: Food,
    reach2: Option<u32>,
    j: int,
    n: int,
) -> bool {
    &&& 0 <= j < n
    &&& is_candidate(s[j], kind, reach2)
    &&& forall|k: int|
        0 <= k < n && #[trigger] is_candidate(s[k], kind, reach2) ==> {
            &&& k < j ==> s[j].dist2->0 < s[k].dist2->0
            &&& j <= k ==> s[j].dist2->0 <= s[k].dist2->0
        }
}

/// `target` is the boid's choice of food of the given kind among the first `n`
/// sightings: the nearest candidate, or nothing when there is no candidate.
pub open spec fn is_target_among(
    s: Seq<FoodSighting>,
    kind: Food,
    reach2: Option<u32>,
    target: Option<usize>,
    n: int,
) -> bool {
    match target {
        None => forall|k: int| 0 <= k < n ==> !#[trigger] is_candidate(s[k], kind, reach2),
        Some(j) => is_nearest_among(s, kind, reach2, j as int, n),
    }
}

/// `eaten` lists, in increasing order, exactly the touched sightings among
/// the first `n`.
pub open spec fn is_eaten_list(s: Seq<FoodSighting>, eaten: Seq<usize>, n: int) -> bool {
    &&& forall|a: int, b: int| 0 <= a < b < eaten.len() ==> eaten[a] < eaten[b]
    &&& forall|a: int|
        0 <= a < eaten.len() ==> #[trigger] eaten[a] < n && s[eaten[a] as int].touching
    &&& forall|k: int| 0 <= k < n && #[trigger] s[k].touching ==> eaten.contains(k as usize)
}

/// Compares two order keys; a missing key is never smaller nor larger.
pub fn key_less(a: Option<u32>, b: Option<u32>) -> (r: bool)
    ensures
        r == key_lt(a, b),
        r <==> (a matches Some(x) && b matches Some(y) && x < y),
{
    match (a, b) {
        (Some(x), Some(y)) => x < y,
        _ => false,
    }
}

/// Decides a boid's meal from what it sees of each piece of food: every
/// touched piece is eaten, and the boid picks the nearest apple within
/// `apple_reach2` and the nearest poison within `poison_reach2` (the squared
/// perception radii, as order keys) among the pieces it does not touch.
/// On a tie the earlier piece wins.
pub fn plan_eat(
    sightings: &Vec<FoodSighting>,
    apple_reach2: Option<u32>,
    poison_reach2: Option<u32>,
) -> (plan: EatPlan)
    ensures
        is_eaten_list(sightings@, plan.eaten@, sightings@.len() as int),
        is_target_among(
            sightings@,
            Food::Apple,
            apple_reach2,
            plan.nearest_apple,
            sightings@.len() as int,
        ),
        is_target_among(
            sightings@,
            Food::Poison,
            poison_reach2,
            plan.nearest_poison,
            sightings@.len() as int,
        ),
{
    let n = sightings.len();
    let mut eaten: Vec<usize> = Vec::new();
    let mut apple: Option<(usize, Option<u32>)> = None;
    let mut poison: Option<(usize, Option<u32>)> = None;
    let mut i: usize = 0;
    while i < n
        invariant
            n == sightings@.len(),
            i <= n,
            is_eaten_list(sightings@, eaten@, i as int),
            is_target_among(
                sightings@,
                Food::Apple,
                apple_reach2,
                match apple {
                    None => None,
                    Some(p) => Some(p.0),
                },
                i as int,
            ),
            apple matches Some(p) ==> p.1 == sightings@[p.0 as int].dist2,
            is_target_among(
                sightings@,
                Food::Poison,
                poison_reach2,
                match poison {
                    None => None,
                    Some(p) => Some(p.0),
                },
                i as int,
            ),
            poison matches Some(p) ==> p.1 == sightings@[p.0 as int].dist2,
        decreases n - i,
    {
        let x = sightings[i];
        if x.touching {
            let ghost old_eaten = eaten@;
            eaten.push(i);
            assert forall|k: int|
                0 <= k < i + 1 && #[trigger] sightings@[k].touching implies eaten@.contains(
                k as usize,
            ) by {
                if k < i {
                    let a = choose|a: int| 0 <= a < old_eaten.len() && old_eaten[a] == k as usize;
                    assert(eaten@[a] == k as usize);
                } else {
                    assert(eaten@[old_eaten.len() as int] == i);
                }
            }
        } else {
            match x.kind {
                Food::Apple => {
                    let best = if key_less(x.dist2, apple_reach2) {
                        match apple {
                            Some((_, d)) => key_less(x.dist2, d),
                            None => true,
                        }
                    } else {
                        false
                    };
                    if best {
                        apple = Some((i, x.dist2));
                    }
                },
                Food::Poison => {
                    let best = if key_less(x.dist2, poison_reach2) {
                        match poison {
                            Some((_, d)) => key_less(x.dist2, d),
                            None => true,
                        }
                    } else {
                        false
                    };
                    if best {
                        poison = Some((i, x.dist2));
                    }
                },
            }
        }
        i += 1;
    }
    EatPlan {
        eaten,
        nearest_apple: match apple {
            None => None,
            Some(p) => Some(p.0),
        },
        nearest_poison: match poison {
            None => None,
            Some(p) => Some(p.0),
        },
    }
}

/// The pieces of `items` at positions `lo..hi` that `eaten` does not list,
/// in their order.
pub open spec fn kept_range<T>(items: Seq<T>, eaten: Seq<usize>, lo: int, hi: int) -> Seq<T>
    decreases hi - lo,
{
    if lo >= hi {
        Seq::empty()
    } else if eaten.contains(lo as usize) {
        kept_range(items, eaten, lo + 1, hi)
    } else {
        seq![items[lo]].add(kept_range(items, eaten, lo + 1, hi))
    }
}

/// The food list after a meal: every piece whose position `eaten` does not
/// list, in its order.
pub open spec fn kept_pieces<T>(items: Seq<T>, eaten: Seq<usize>) -> Seq<T> {
    kept_range(items, eaten, 0, items.len() as int)
}

/// `eaten` is strictly increasing and each entry is a position below `len`.
pub open spec fn is_increasing_below(eaten: Seq<usize>, len: int) -> bool {
    &&& forall|a: int, b: int| 0 <= a < b < eaten.len() ==> eaten[a] < eaten[b]
    &&& forall|a: int| 0 <= a < eaten.len() ==> #[trigger] eaten[a] < len
}

/// No entry of `eaten` lies in `lo..hi`.
spec fn none_eaten_in(eaten: Seq<usize>, lo: int, hi: int) -> bool {
    forall|a: int| 0 <= a < eaten.len() ==> !(lo <= #[trigger] eaten[a] < hi)
}

/// Where nothing is eaten, every piece is kept.
proof fn lemma_kept_untouched_range<T>(items: Seq<T>, eaten: Seq<usize>, lo: int, hi: int)
    requires
        0 <= lo <= hi <= items.len(),
        hi <= usize::MAX,
        none_eaten_in(eaten, lo, hi),
    ensures
        kept_range(items, eaten, lo, hi) =~= items.subrange(lo, hi),
    decreases hi - lo,
{
    if lo < hi {
        if eaten.contains(lo as usize) {
            let a = choose|a: int| 0 <= a < eaten.len() && eaten[a] == lo as usize;
            assert(!(lo <= eaten[a] < hi));
        }
        lemma_kept_untouched_range(items, eaten, lo + 1, hi);
    }
}

/// The kept pieces of a range are those of its two halves, one after the other.
proof fn lemma_kept_split<T>(items: Seq<T>, eaten: Seq<usize>, lo: int, mid: int, hi: int)
    requires
        lo <= mid <= hi,
    ensures
        kept_range(items, eaten, lo, hi) =~= kept_range(items, eaten, lo, mid) + kept_range(
            items,
            eaten,
            mid,
            hi,
        ),
    decreases mid - lo,
{
    if lo < mid {
        lemma_kept_split(items, eaten, lo + 1, mid, hi);
    }
}

/// `s` with its piece at `j` removed and its last piece moved into that
/// place, as `Vec::swap_remove` does.
pub open spec fn swap_removed<T>(s: Seq<T>, j: int) -> Seq<T> {
    s.update(j, s.last()).drop_last()
}

/// The food list after a meal: the eaten positions are swap-removed from the
/// highest down, so each removal takes out the piece at that position and
/// moves an uneaten piece into its place.
pub open spec fn after_meal<T>(items: Seq<T>, eaten: Seq<usize>) -> Seq<T>
    decreases eaten.len(),
{
    if eaten.len() == 0 {
        items
    } else {
        after_meal(swap_removed(items, eaten.last() as int), eaten.drop_last())
    }
}

/// Entries of a strictly increasing list are at least as far apart as their
/// places in it.
proof fn lemma_increasing_spread(eaten: Seq<usize>, len: int, a: int, b: int)
    requires
        is_increasing_below(eaten, len),
        0 <= a <= b < eaten.len(),
    ensures
        eaten[b] >= eaten[a] + (b - a),
    decreases b - a,
{
    if a < b {
        lemma_increasing_spread(eaten, len, a, b - 1);
        assert(eaten[b - 1] < eaten[b]);
    }
}

/// Two ranges holding the same pieces, with the same positions eaten, keep
/// the same pieces.
proof fn lemma_kept_congruent<T>(
    items1: Seq<T>,
    eaten1: Seq<usize>,
    items2: Seq<T>,
    eaten2: Seq<usize>,
    lo: int,
    hi: int,
)
    requires
        forall|p: int| lo <= p < hi ==> #[trigger] items1[p] == items2[p],
        forall|p: int|
            lo <= p < hi ==> (#[trigger] eaten1.contains(p as usize) <==> eaten2.contains(
                p as usize,
            )),
    ensures
        kept_range(items1, eaten1, lo, hi) == kept_range(items2, eaten2, lo, hi),
    decreases hi - lo,
{
    if lo < hi {
        assert(items1[lo] == items2[lo]);
        lemma_kept_congruent(items1, eaten1, items2, eaten2, lo + 1, hi);
    }
}

/// A meal removes exactly the eaten pieces: what remains is, counted with
/// multiplicity, the pieces at the positions not eaten, and there are as
/// many fewer pieces as there were bites.
pub proof fn lemma_meal_removes_eaten<T>(items: Seq<T>, eaten: Seq<usize>)
    requires
        is_increasing_below(eaten, items.len() as int),
        items.len() <= usize::MAX,
    ensures
        after_meal(items, eaten).to_multiset() =~= kept_pieces(items, eaten).to_multiset(),
        after_meal(items, eaten).len() == items.len() - eaten.len(),
    decreases eaten.len(),
{
    broadcast use {
        vstd::multiset::group_multiset_axioms,
        vstd::seq_lib::lemma_multiset_commutative,
    };

    let n = items.len() as int;
    if eaten.len() == 0 {
        lemma_kept_untouched_range(items, eaten, 0, n);
        assert(items.subrange(0, n) =~= items);
    } else {
        let k = eaten.len() - 1;
        let j = eaten[k] as int;
        let rest = eaten.drop_last();
        let shorter = swap_removed(items, j);
        assert(forall|a: int| 0 <= a < rest.len() ==> rest[a] == eaten[a]);
        assert forall|a: int| 0 <= a < rest.len() implies #[trigger] rest[a] < j by {
            assert(eaten[a] < eaten[k]);
        }
        assert(is_increasing_below(rest, n - 1));
        lemma_meal_removes_eaten(shorter, rest);
        // Below `j` both lists hold the same pieces, eaten alike.
        assert forall|p: int| 0 <= p < j implies #[trigger] items[p] == shorter[p] by {}
        assert forall|p: int| 0 <= p < j implies (#[trigger] eaten.contains(p as usize)
            <==> rest.contains(p as usize)) by {
            if eaten.contains(p as usize) {
                let a = choose|a: int| 0 <= a < eaten.len() && eaten[a] == p as usize;
                assert(a != k);
                assert(rest[a] == p as usize);
            }
            if rest.contains(p as usize) {
                let a = choose|a: int| 0 <= a < rest.len() && rest[a] == p as usize;
                assert(eaten[a] == p as usize);
            }
        }
        lemma_kept_congruent(items, eaten, shorter, rest, 0, j);
        let front = kept_range(items, eaten, 0, j);
        // In the full list, `j` is eaten and nothing above it is.
        assert(none_eaten_in(eaten, j + 1, n)) by {
            assert forall|a: int| 0 <= a < eaten.len() implies !(j + 1 <= #[trigger] eaten[a] < n) by {
                if a < k {
                    assert(eaten[a] < eaten[k]);
                }
            }
        }
        assert(eaten.contains(j as usize));
        lemma_kept_untouched_range(items, eaten, j + 1, n);
        lemma_kept_split(items, eaten, 0, j, n);
        assert(kept_range(items, eaten, j, n) == kept_range(items, eaten, j + 1, n));
        let tail = items.subrange(j + 1, n);
        assert(kept_pieces(items, eaten) == front + tail);
        // In the shorter list, the last piece sits at `j` and nothing from `j` on is eaten.
        assert(none_eaten_in(rest, j, n - 1)) by {
            assert forall|a: int| 0 <= a < rest.len() implies !(j <= #[trigger] rest[a] < n - 1) by {
            }
        }
        lemma_kept_untouched_range(shorter, rest, j, n - 1);
        lemma_kept_split(shorter, rest, 0, j, n - 1);
        assert(kept_pieces(shorter, rest) == front + shorter.subrange(j, n - 1));
        if j < n - 1 {
            assert(shorter.subrange(j, n - 1) =~= seq![items[n - 1]] + items.subrange(j + 1, n - 1));
            assert(tail =~= items.subrange(j + 1, n - 1) + seq![items[n - 1]]);
            assert((front + shorter.subrange(j, n - 1)).to_multiset() =~= (front + tail).to_multiset());
        } else {
            assert(shorter.subrange(j, n - 1) =~= Seq::<T>::empty());
            assert(tail =~= Seq::<T>::empty());
            assert(front + tail =~= front + shorter.subrange(j, n - 1));
        }
    }
}

/// Removes the eaten pieces from the food list with `swap_remove`, from the
/// highest position down, so that each removal takes out an eaten piece and
/// moves an uneaten one into its place.
pub fn remove_eaten<T>(items: &mut Vec<T>, eaten: &Vec<usize>)
    requires
        is_increasing_below(eaten@, old(items)@.len() as int),
    ensures
        final(items)@ == after_meal(old(items)@, eaten@),
        final(items)@.to_multiset() == kept_pieces(old(items)@, eaten@).to_multiset(),
        final(items)@.len() == old(items)@.len() - eaten@.len(),
{
    let m = eaten.len();
    let ghost start = items@;
    let ghost n = start.len() as int;
    // The list's length fits in a `usize`, as `lemma_meal_removes_eaten` needs.
    let len = items.len();
    assert(n == len);
    proof {
        lemma_meal_removes_eaten(start, eaten@);
        assert(eaten@.take(m as int) =~= eaten@);
    }
    let mut r: usize = m;
    while r > 0
        invariant
            m == eaten@.len(),
            n == start.len(),
            r <= m,
            is_increasing_below(eaten@, n),
            after_meal(items@, eaten@.take(r as int)) == after_meal(start, eaten@),
            items@.len() == n - (m - r),
        decreases r,
    {
        let pos = eaten[r - 1];
        proof {
            lemma_increasing_spread(eaten@, n, r - 1, m - 1);
            assert(eaten@.take(r as int).last() == pos);
            assert(eaten@.take(r as int).drop_last() =~= eaten@.take(r - 1));
        }
        items.swap_remove(pos);
        r -= 1;
    }
    assert(eaten@.take(0) =~= Seq::<usize>::empty());
}

/// A meal removes exactly the pieces the boid touches: for a food list the
/// sightings were taken from, the kept pieces are the untouched ones, and
/// there are as many fewer pieces as there were bites.
pub proof fn lemma_meal_keeps_untouched<T>(items: Seq<T>, s: Seq<FoodSighting>, eaten: Seq<usize>)
    requires
        items.len() == s.len(),
        s.len() <= usize::MAX,
        is_eaten_list(s, eaten, s.len() as int),
    ensures
        is_increasing_below(eaten, items.len() as int),
        forall|i: int| 0 <= i < items.len() ==> (eaten.contains(i as usize) <==> #[trigger] s[i].touching),
{
    assert forall|i: int| 0 <= i < items.len() implies (eaten.contains(i as usize) <==> #[trigger] s[i].touching) by {
        if eaten.contains(i as usize) {
            let a = choose|a: int| 0 <= a < eaten.len() && eaten[a] == i as usize;
            assert(s[eaten[a] as int].touching);
        }
    }
}

/// A boid never steers toward a piece it is eating in the same meal.
pub proof fn lemma_target_not_eaten(
    s: Seq<FoodSighting>,
    eaten: Seq<usize>,
    kind: Food,
    reach2: Option<u32>,
    target: usize,
)
    requires
        is_eaten_list(s, eaten, s.len() as int),
        is_target_among(s, kind, reach2, Some(target), s.len() as int),
    ensures
        !eaten.contains(target),
{
    if eaten.contains(target) {
        let a = choose|a: int| 0 <= a < eaten.len() && eaten[a] == target;
        assert(s[eaten[a] as int].touching);
    }
}

/// Keys compare as the numbers they hold, over the whole `u32` range, and a
/// missing key compares with nothing.
pub proof fn lemma_key_order()
    ensures
        forall|x: u32, y: u32| #[trigger] key_lt(Some(x), Some(y)) <==> x < y,
        forall|k: Option<u32>| !#[trigger] key_lt(None, k) && !key_lt(k, None),
{
}

/// Every untouched piece of a kind that lies closer than the reach is
/// perceived, whatever its distance: the boid then has a target of that kind,
/// untouched, within reach, and no farther than that piece.
pub proof fn lemma_perceived_piece_gives_target(
    s: Seq<FoodSighting>,
    kind: Food,
    reach2: u32,
    target: Option<usize>,
    k: int,
    dist2: u32,
)
    requires
        is_target_among(s, kind, Some(reach2), target, s.len() as int),
        0 <= k < s.len(),
        !s[k].touching,
        s[k].kind == kind,
        s[k].dist2 == Some(dist2),
        dist2 < reach2,
    ensures
        target is Some,
        ({
            let j = target->0 as int;
            &&& 0 <= j < s.len()
            &&& !s[j].touching
            &&& s[j].kind == kind
            &&& s[j].dist2 is Some
            &&& s[j].dist2->0 <= dist2
            &&& s[j].dist2->0 < reach2
        }),
{
    assert(is_candidate(s[k], kind, Some(reach2)));
}

/// No target is ever chosen from outside the reach or of the wrong kind, and
/// the target is never farther than any other perceived piece.
pub proof fn lemma_target_is_closest(
    s: Seq<FoodSighting>,
    kind: Food,
    reach2: u32,
    j: usize,
    k: int,
    dist2: u32,
)
    requires
        is_target_among(s, kind, Some(reach2), Some(j), s.len() as int),
        0 <= k < s.len(),
        !s[k].touching,
        s[k].kind == kind,
        s[k].dist2 == Some(dist2),
        dist2 < reach2,
    ensures
        s[j as int].dist2 matches Some(d) && d <= dist2 && d < reach2,
        s[j as int].kind == kind,
        k < j ==> s[j as int].dist2->0 < dist2,
{
    assert(is_candidate(s[k], kind, Some(reach2)));
}

/// Every piece at a position no bite lists survives the meal.
pub proof fn lemma_uneaten_piece_is_kept<T>(items: Seq<T>, eaten: Seq<usize>, i: int)
    requires
        0 <= i < items.len(),
        !eaten.contains(i as usize),
    ensures
        kept_pieces(items, eaten).contains(items[i]),
{
    lemma_kept_range_contains(items, eaten, 0, items.len() as int, i);
}

proof fn lemma_kept_range_contains<T>(items: Seq<T>, eaten: Seq<usize>, lo: int, hi: int, i: int)
    requires
        lo <= i < hi,
        !eaten.contains(i as usize),
    ensures
        kept_range(items, eaten, lo, hi).contains(items[i]),
    decreases i - lo,
{
    if lo < i {
        lemma_kept_range_contains(items, eaten, lo + 1, hi, i);
        let rest = kept_range(items, eaten, lo + 1, hi);
        let w = choose|w: int| 0 <= w < rest.len() && rest[w] == items[i];
        if !eaten.contains(lo as usize) {
            assert((seq![items[lo]] + rest)[w + 1] == items[i]);
        }
    } else {
        assert((seq![items[lo]] + kept_range(items, eaten, lo + 1, hi))[0] == items[i]);
    }
}

} // verus!
