use vstd::prelude::*;

verus! {

/// Points available in one round: thirteen Hearts and the queen of spades.
pub const ROUND_POINTS: u32 = 26;

/// Sum of a sequence of scores.
pub open spec fn total(s: Seq<u32>) -> int
    decreases s.len(),
{
    if s.len() == 0 {
        0
    } else {
        total(s.drop_last()) + s.last()
    }
}

/// Whether some player took all the round's points.
pub open spec fn shot_the_moon(points: Seq<u32>) -> bool {
    exists|i: int| 0 <= i < points.len() && points[i] == 26
}

/// The points each player receives for a round: as taken, unless a player
/// shot the moon, in which case that player receives 0 and every other 26.
pub open spec fn round_result(points: Seq<u32>) -> Seq<u32> {
    if shot_the_moon(points) {
        Seq::new(points.len(), |j: int| if points[j] == 26 { 0u32 } else { 26u32 })
    } else {
        points
    }
}

/// Applies the shoot-the-moon rule to the points taken in a round.
pub fn apply_shoot_the_moon(points: &Vec<u32>) -> (r: Vec<u32>)
    ensures
        r@ == round_result(points@),
{
    let mut shooter = false;
    let mut i: usize = 0;
    while i < points.len()
        invariant
            i <= points@.len(),
            shooter == exists|k: int| 0 <= k < i && points@[k] == 26,
        decreases points@.len() - i,
    {
        if points[i] == ROUND_POINTS {
            shooter = true;
        }
        i = i + 1;
    }
    let mut r: Vec<u32> = Vec::new();
    let mut j: usize = 0;
    while j < points.len()
        invariant
            j <= points@.len(),
            shooter == shot_the_moon(points@),
            r@.len() == j,
            forall|k: int| 0 <= k < j ==> #[trigger] r@[k] == round_result(points@)[k],
        decreases points@.len() - j,
    {
        if !shooter {
            r.push(points[j]);
        } else if points[j] == ROUND_POINTS {
            r.push(0);
        } else {
            r.push(ROUND_POINTS);
        }
        j = j + 1;
    }
    assert(r@ =~= round_result(points@));
    r
}

/// Scoring of a four-player round whose tricks carried all 26 points: either
/// nobody shot the moon and the points handed out total 26, or exactly one
/// player shot the moon, receives 0, and each of the three others receives 26,
/// for a total of 78.
pub proof fn lemma_round_total(points: Seq<u32>)
    requires
        points.len() == 4,
        total(points) == 26,
    ensures
        !shot_the_moon(points) ==> total(round_result(points)) == 26,
        shot_the_moon(points) ==> {
            &&& total(round_result(points)) == 26 * 3
            &&& exists|i: int| 0 <= i < 4 && round_result(points)[i] == 0
                && forall|j: int| 0 <= j < 4 && j != i ==> round_result(points)[j] == 26
        },
{
    let r = round_result(points);
    lemma_total_of_four(points);
    if shot_the_moon(points) {
        let i = choose|i: int| 0 <= i < 4 && points[i] == 26;
        lemma_total_of_four(r);
        assert(r[i] == 0);
    }
}

/// The sum of four scores, spelled out.
pub proof fn lemma_total_of_four(s: Seq<u32>)
    requires
        s.len() == 4,
    ensures
        total(s) == s[0] + s[1] + s[2] + s[3],
{
    let s3 = s.drop_last();
    let s2 = s3.drop_last();
    let s1 = s2.drop_last();
    let s0 = s1.drop_last();
    assert(total(s0) == 0);
    assert(total(s1) == s[0]);
    assert(total(s2) == s[0] + s[1]);
    assert(total(s3) == s[0] + s[1] + s[2]);
}

/// Whether the match ends: some cumulative score has reached the target.
pub open spec fn reached_target(scores: Seq<u32>, target: u32) -> bool {
    exists|i: int| 0 <= i < scores.len() && scores[i] >= target
}

/// Whether `i` holds a lowest score.
pub open spec fn is_lowest(scores: Seq<u32>, i: int) -> bool {
    0 <= i < scores.len() && forall|j: int| 0 <= j < scores.len() ==> scores[i] <= #[trigger] scores[j]
}

/// Whether any cumulative score has reached `target`.
pub fn match_over(scores: &Vec<u32>, target: u32) -> (r: bool)
    ensures
        r == reached_target(scores@, target),
{
    let mut i: usize = 0;
    while i < scores.len()
        invariant
            i <= scores@.len(),
            forall|k: int| 0 <= k < i ==> #[trigger] scores@[k] < target,
        decreases scores@.len() - i,
    {
        if scores[i] >= target {
            return true;
        }
        i = i + 1;
    }
    false
}

/// The seats holding the lowest cumulative score, in seat order; several on a tie.
pub fn winners(scores: &Vec<u32>) -> (r: Vec<usize>)
    ensures
        forall|k: int| 0 <= k < r@.len() ==> is_lowest(scores@, #[trigger] r@[k] as int),
        forall|i: int| is_lowest(scores@, i) ==> r@.contains(i as usize),
        forall|a: int, b: int| 0 <= a < b < r@.len() ==> r@[a] < r@[b],
{
    let mut r: Vec<usize> = Vec::new();
    if scores.len() == 0 {
        return r;
    }
    let mut low: u32 = scores[0];
    let mut i: usize = 1;
    while i < scores.len()
        invariant
            1 <= i <= scores@.len(),
            exists|k: int| 0 <= k < i && scores@[k] == low,
            forall|k: int| 0 <= k < i ==> low <= #[trigger] scores@[k],
        decreases scores@.len() - i,
    {
        if scores[i] < low {
            low = scores[i];
        }
        i = i + 1;
    }
    let mut j: usize = 0;
    while j < scores.len()
        invariant
            j <= scores@.len(),
            exists|k: int| 0 <= k < scores@.len() && scores@[k] == low,
            forall|k: int| 0 <= k < scores@.len() ==> low <= #[trigger] scores@[k],
            forall|k: int| 0 <= k < r@.len() ==> is_lowest(scores@, #[trigger] r@[k] as int),
            forall|k: int| 0 <= k < r@.len() ==> #[trigger] r@[k] < j,
            forall|m: int| 0 <= m < j && is_lowest(scores@, m) ==> r@.contains(m as usize),
            forall|a: int, b: int| 0 <= a < b < r@.len() ==> r@[a] < r@[b],
        decreases scores@.len() - j,
    {
        if scores[j] == low {
            let ghost old_r = r@;
            r.push(j);
            proof {
                assert(r@[old_r.len() as int] == j);
                assert forall|m: int| 0 <= m < j && is_lowest(scores@, m) implies r@.contains(m as usize) by {
                    let k = choose|k: int| 0 <= k < old_r.len() && old_r[k] == m as usize;
                    assert(r@[k] == m as usize);
                }
            }
        } else {
            proof {
                let k = choose|k: int| 0 <= k < scores@.len() && scores@[k] == low;
                assert(scores@[j as int] > scores@[k]);
            }
        }
        j = j + 1;
    }
    r
}

} // verus!
