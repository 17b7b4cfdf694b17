use std::collections::HashMap;
use vstd::prelude::*;
use vstd::std_specs::iter::IteratorSpec;

verus! {

broadcast use vstd::std_specs::hash::group_hash_axioms;

/// The number of points a vote is worth in a round.
pub open spec fn points_per_vote(round: u32) -> int {
    100 * round
}

/// The score of a player, zero where it has none yet.
pub open spec fn score_of(scores: Map<usize, i32>, id: usize) -> int {
    if scores.contains_key(id) {
        scores[id] as int
    } else {
        0
    }
}

/// The voters who voted for `target`.
pub open spec fn voters_for(votes: Map<usize, usize>, target: usize) -> Set<usize> {
    Set::new(|voter: usize| votes.contains_key(voter) && votes[voter] == target)
}

/// How many voters voted for `target`.
pub open spec fn vote_count(votes: Map<usize, usize>, target: usize) -> nat {
    voters_for(votes, target).len()
}

/// The scores after each vote has given `points` to the player voted for.
pub open spec fn scores_with_votes(scores: Map<usize, i32>, votes: Map<usize, usize>, points: int) -> Map<
    usize,
    i32,
> {
    Map::new(
        |t: usize| scores.contains_key(t) || vote_count(votes, t) > 0,
        |t: usize| (score_of(scores, t) + points * vote_count(votes, t)) as i32,
    )
}

/// A vote by a new voter adds one to the count of the player voted for and
/// leaves the other counts as they were.
pub proof fn lemma_vote_count_insert(votes: Map<usize, usize>, voter: usize, target: usize, t: usize)
    requires
        votes.dom().finite(),
        !votes.contains_key(voter),
    ensures
        vote_count(votes.insert(voter, target), t) == vote_count(votes, t) + if target == t {
            1int
        } else {
            0int
        },
{
    let after = votes.insert(voter, target);
    let a = voters_for(votes, t);
    let b = voters_for(after, t);
    vstd::set_lib::lemma_len_subset(a, votes.dom());
    if target == t {
        assert(b =~= a.insert(voter));
    } else {
        assert(b =~= a);
    }
}

/// A part of the votes counts no more for anyone than all of them.
pub proof fn lemma_vote_count_submap(part: Map<usize, usize>, votes: Map<usize, usize>, t: usize)
    requires
        votes.dom().finite(),
        part.submap_of(votes),
    ensures
        vote_count(part, t) <= vote_count(votes, t),
{
    let a = voters_for(part, t);
    let b = voters_for(votes, t);
    vstd::set_lib::lemma_len_subset(b, votes.dom());
    assert forall|v: usize| a.contains(v) implies b.contains(v) by {
        assert(part.contains_key(v));
    }
    vstd::set_lib::lemma_len_subset(a, b);
}

/// Whether the scores that the votes give all stay within `i32`.
pub open spec fn votes_fit(scores: Map<usize, i32>, votes: Map<usize, usize>, points: int) -> bool {
    forall|t: usize| score_of(scores, t) + points * #[trigger] vote_count(votes, t) <= i32::MAX
}

/// Gives every player voted for `points` for each vote.
pub fn add_vote_points(scores: &mut HashMap<usize, i32>, votes: &HashMap<usize, usize>, points: i32)
    requires
        points >= 0,
        votes_fit(old(scores)@, votes@, points as int),
    ensures
        final(scores)@ == scores_with_votes(old(scores)@, votes@, points as int),
{
    let ok = try_add_vote_points(scores, votes, points);
    assert(ok);
}

/// Gives every player voted for `points` for each vote, where every score
/// stays within `i32`, and says whether it does; where it does not, the
/// scores are left in some state between.
pub fn try_add_vote_points(scores: &mut HashMap<usize, i32>, votes: &HashMap<usize, usize>, points: i32) -> (ok: bool)
    requires
        points >= 0,
    ensures
        ok == votes_fit(old(scores)@, votes@, points as int),
        ok ==> final(scores)@ == scores_with_votes(old(scores)@, votes@, points as int),
{
    let ghost start = scores@;
    let ghost all = votes@;
    let ghost pairs = vstd::std_specs::hash::spec_hash_map_iter(votes).remaining();
    let ghost mut seen: Map<usize, usize> = Map::empty();
    assert(all.dom().finite());
    assert forall|t: usize| vote_count(seen, t) == 0 by {
        assert(voters_for(seen, t) =~= Set::empty());
    }
    for pair in it: votes.iter()
        invariant
            start == old(scores)@,
            all == votes@,
            all.dom().finite(),
            points >= 0,
            it.seq() == pairs,
            pairs.no_duplicates(),
            pairs.len() == all.dom().len(),
            forall|j: int|
                0 <= j < pairs.len() ==> all.contains_key(*(#[trigger] pairs[j]).0) && all[*pairs[j].0]
                    == *pairs[j].1,
            forall|k: usize| #[trigger] all.contains_key(k) ==> pairs.contains((&k, &all[k])),
            seen.dom().finite(),
            seen.submap_of(all),
            forall|j: int| 0 <= j < it.index() ==> seen.contains_key(*(#[trigger] pairs[j]).0),
            forall|j: int| it.index() <= j < pairs.len() ==> !seen.contains_key(*(#[trigger] pairs[j]).0),
            forall|t: usize|
                #[trigger] scores@.contains_key(t) <==> (start.contains_key(t) || vote_count(seen, t) > 0),
            forall|t: usize|
                #[trigger] scores@.contains_key(t) ==> scores@[t] == score_of(start, t) + points
                    * vote_count(seen, t),
    {
        let (voter, target) = pair;
        let ghost i = it.index();
        let ghost k = *voter;
        let ghost v = *target;
        assert(pairs[i] == pair);
        assert(!seen.contains_key(k));
        proof {
            assert forall|t: usize| vote_count(seen.insert(k, v), t) == vote_count(seen, t) + if v == t {
                1int
            } else {
                0int
            } by {
                lemma_vote_count_insert(seen, k, v, t);
            }
            lemma_vote_count_submap(seen.insert(k, v), all, v);
        }
        let current: i32 = match scores.get(target) {
            Some(s) => {
                assert(scores@.contains_key(v));
                *s
            },
            None => {
                assert(!scores@.contains_key(v));
                0
            },
        };
        assert(current == score_of(start, v) + points * vote_count(seen, v));
        let ghost scores_before = scores@;
        assert(points * vote_count(seen, v) + points <= points * vote_count(all, v)) by (nonlinear_arith)
            requires
                points >= 0,
                vote_count(seen, v) + 1 <= vote_count(all, v),
        ;
        if current > i32::MAX - points {
            assert(score_of(start, v) + points * vote_count(all, v) > i32::MAX);
            return false;
        }
        assert(points * vote_count(seen, v) >= 0) by (nonlinear_arith)
            requires
                points >= 0,
        ;
        scores.insert(*target, current + points);
        proof {
            let before = seen;
            seen = seen.insert(k, v);
            assert(points * (vote_count(before, v) + 1) == points * vote_count(before, v) + points)
                by (nonlinear_arith);
            assert forall|t: usize| #[trigger] scores@.contains_key(t) implies scores@[t] == score_of(
                start,
                t,
            ) + points * vote_count(seen, t) by {
                if t != v {
                    assert(scores_before.contains_key(t));
                }
            }
            assert forall|t: usize|
                start.contains_key(t) || vote_count(seen, t) > 0 implies #[trigger] scores@.contains_key(t) by {
                if t != v {
                    if vote_count(seen, t) > 0 {
                        assert(vote_count(before, t) > 0);
                    }
                    assert(scores_before.contains_key(t));
                }
            }
            assert forall|j: int| i + 1 <= j < pairs.len() implies !seen.contains_key(
                *(#[trigger] pairs[j]).0,
            ) by {
                if *pairs[j].0 == k {
                    assert(pairs[j] == pairs[i as int]);
                }
            }
        }
    }
    proof {
        assert forall|k: usize| #[trigger] all.contains_key(k) implies seen.contains_key(k) by {
            let j = choose|j: int| 0 <= j < pairs.len() && pairs[j] == (&k, &all[k]);
            assert(*pairs[j].0 == k);
        }
        assert(seen =~= all);
    }
    assert(scores@ =~= scores_with_votes(start, all, points as int));
    assert forall|t: usize| score_of(start, t) + points * #[trigger] vote_count(all, t) <= i32::MAX by {
        assert(vote_count(seen, t) == vote_count(all, t));
        if scores@.contains_key(t) {
            assert(scores@[t] <= i32::MAX);
        } else {
            assert(vote_count(seen, t) == 0);
            assert(!start.contains_key(t));
        }
    }
    true
}

} // verus!
