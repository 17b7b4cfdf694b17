use std::collections::HashMap;
use vstd::prelude::*;

use crate::questions::{Player, Question, QuestionView, is_author, question_views};
use crate::scoring::score_of;

verus! {

broadcast use vstd::std_specs::hash::group_hash_axioms;

/// Whether player `id` has answered every question handed to it.
pub open spec fn answered_all(qs: Seq<QuestionView>, id: usize) -> bool {
    forall|i: int|
        0 <= i < qs.len() && is_author(#[trigger] qs[i], id) ==> qs[i].answers.contains_key(id)
}

/// The names of the players who have answered every question handed to
/// them, in the order of `ps`.
pub open spec fn ready_names(ps: Seq<Player>, qs: Seq<QuestionView>) -> Seq<Seq<char>>
    decreases ps.len(),
{
    if ps.len() == 0 {
        Seq::empty()
    } else {
        let rest = ready_names(ps.drop_last(), qs);
        if answered_all(qs, ps.last().id) {
            rest.push(ps.last().name@)
        } else {
            rest
        }
    }
}

/// The names of the players who have answered every question handed to
/// them, shown on the screen while prompting.
pub fn ready_player_names(players: &Vec<Player>, questions: &Vec<Question>) -> (names: Vec<String>)
    ensures
        names@.map_values(|s: String| s@) == ready_names(players@, question_views(questions@)),
{
    let ghost qs = question_views(questions@);
    let mut names: Vec<String> = Vec::new();
    let mut i: usize = 0;
    while i < players.len()
        invariant
            i <= players@.len(),
            qs == question_views(questions@),
            names@.map_values(|s: String| s@) == ready_names(players@.take(i as int), qs),
        decreases players.len() - i,
    {
        let id = players[i].id;
        let mut ready = true;
        let mut j: usize = 0;
        while j < questions.len()
            invariant
                j <= questions@.len(),
                qs == question_views(questions@),
                ready == forall|k: int|
                    0 <= k < j && is_author(#[trigger] qs[k], id) ==> qs[k].answers.contains_key(id),
            decreases questions.len() - j,
        {
            let q = &questions[j];
            assert(qs[j as int] == q@);
            if (q.player_ids.0 == id || q.player_ids.1 == id) && !q.answers.contains_key(&id) {
                ready = false;
            }
            j += 1;
        }
        assert(players@.take(i + 1).drop_last() =~= players@.take(i as int));
        if ready {
            names.push(players[i].name.clone());
        }
        i += 1;
        assert(names@.map_values(|s: String| s@) =~= ready_names(players@.take(i as int), qs));
    }
    assert(players@.take(i as int) =~= players@);
    names
}

/// The score of a player, zero where it has none.
pub open spec fn player_score(scores: Map<usize, i32>, p: Player) -> int {
    score_of(scores, p.id)
}

/// Puts `p` into a ranking from highest to lowest score, behind every player
/// with at least its score.
pub open spec fn rank_insert(ranking: Seq<Player>, p: Player, scores: Map<usize, i32>) -> Seq<Player>
    decreases ranking.len(),
{
    if ranking.len() == 0 {
        seq![p]
    } else if player_score(scores, ranking.last()) >= player_score(scores, p) {
        ranking.push(p)
    } else {
        rank_insert(ranking.drop_last(), p, scores).push(ranking.last())
    }
}

/// The players from highest to lowest score; players with equal scores keep
/// the order they had in `ps`.
pub open spec fn ranked(ps: Seq<Player>, scores: Map<usize, i32>) -> Seq<Player>
    decreases ps.len(),
{
    if ps.len() == 0 {
        Seq::empty()
    } else {
        rank_insert(ranked(ps.drop_last(), scores), ps.last(), scores)
    }
}

/// Whether a list of players goes from highest to lowest score.
pub open spec fn descending(r: Seq<Player>, scores: Map<usize, i32>) -> bool {
    forall|i: int, j: int|
        0 <= i < j < r.len() ==> player_score(scores, #[trigger] r[i]) >= player_score(
            scores,
            #[trigger] r[j],
        )
}

/// Inserting at the place where every later player has a lower score.
proof fn lemma_rank_insert_at(ranking: Seq<Player>, p: Player, scores: Map<usize, i32>, at: int)
    requires
        0 <= at <= ranking.len(),
        forall|k: int|
            at <= k < ranking.len() ==> player_score(scores, #[trigger] ranking[k]) < player_score(
                scores,
                p,
            ),
        at == 0 || player_score(scores, ranking[at - 1]) >= player_score(scores, p),
    ensures
        rank_insert(ranking, p, scores) == ranking.insert(at, p),
    decreases ranking.len(),
{
    if ranking.len() == 0 {
        assert(ranking.insert(at, p) =~= seq![p]);
    } else if at == ranking.len() {
        assert(ranking.insert(at, p) =~= ranking.push(p));
    } else {
        let shorter = ranking.drop_last();
        lemma_rank_insert_at(shorter, p, scores, at);
        assert(shorter.insert(at, p).push(ranking.last()) =~= ranking.insert(at, p));
    }
}

/// Inserting into a ranking keeps it descending and adds exactly one player.
proof fn lemma_rank_insert_keeps_order(ranking: Seq<Player>, p: Player, scores: Map<usize, i32>)
    requires
        descending(ranking, scores),
    ensures
        descending(rank_insert(ranking, p, scores), scores),
        rank_insert(ranking, p, scores).to_multiset() == ranking.to_multiset().insert(p),
    decreases ranking.len(),
{
    broadcast use vstd::seq_lib::group_to_multiset_ensures;

    if ranking.len() == 0 {
        assert(seq![p] =~= Seq::<Player>::empty().push(p));
    } else if player_score(scores, ranking.last()) >= player_score(scores, p) {
    } else {
        let shorter = ranking.drop_last();
        lemma_rank_insert_keeps_order(shorter, p, scores);
        let inner = rank_insert(shorter, p, scores);
        assert(ranking =~= shorter.push(ranking.last()));
        assert forall|k: int| 0 <= k < inner.len() implies player_score(scores, #[trigger] inner[k])
            >= player_score(scores, ranking.last()) by {
            assert(inner.to_multiset().count(inner[k]) > 0);
            assert(shorter.to_multiset().insert(p).count(inner[k]) > 0);
            if inner[k] != p {
                assert(shorter.to_multiset().count(inner[k]) > 0);
                assert(shorter.contains(inner[k]));
                let m = choose|m: int| 0 <= m < shorter.len() && shorter[m] == inner[k];
                assert(ranking[m] == shorter[m]);
            }
        }
    }
}

/// The ranking goes from highest to lowest score and holds every player
/// exactly as often as `ps` does.
pub proof fn lemma_ranked_is_sorted_permutation(ps: Seq<Player>, scores: Map<usize, i32>)
    ensures
        descending(ranked(ps, scores), scores),
        ranked(ps, scores).to_multiset() == ps.to_multiset(),
    decreases ps.len(),
{
    broadcast use vstd::seq_lib::group_to_multiset_ensures;

    if ps.len() > 0 {
        lemma_ranked_is_sorted_permutation(ps.drop_last(), scores);
        lemma_rank_insert_keeps_order(ranked(ps.drop_last(), scores), ps.last(), scores);
        assert(ps =~= ps.drop_last().push(ps.last()));
    } else {
        assert(ps.to_multiset() =~= vstd::multiset::Multiset::empty());
        assert(ranked(ps, scores).to_multiset() =~= vstd::multiset::Multiset::empty());
    }
}

/// The score of a player from the table of scores, zero where it has none.
fn lookup_score(scores: &HashMap<usize, i32>, id: usize) -> (s: i32)
    ensures
        s == score_of(scores@, id),
{
    match scores.get(&id) {
        Some(s) => *s,
        None => 0,
    }
}

/// The players from highest to lowest score, as the results screen lists
/// them; players with equal scores keep their order.
pub fn rank_players(players: &Vec<Player>, scores: &HashMap<usize, i32>) -> (r: Vec<Player>)
    ensures
        r@ == ranked(players@, scores@),
{
    let mut sorted: Vec<Player> = Vec::new();
    let mut i: usize = 0;
    while i < players.len()
        invariant
            i <= players@.len(),
            sorted@ == ranked(players@.take(i as int), scores@),
            descending(sorted@, scores@),
        decreases players.len() - i,
    {
        let p = players[i].clone();
        let s = lookup_score(scores, p.id);
        let mut at = sorted.len();
        while at > 0 && lookup_score(scores, sorted[at - 1].id) < s
            invariant
                at <= sorted@.len(),
                s == player_score(scores@, p),
                forall|k: int|
                    at <= k < sorted@.len() ==> player_score(scores@, #[trigger] sorted@[k]) < s,
            decreases at,
        {
            at -= 1;
        }
        proof {
            lemma_rank_insert_at(sorted@, p, scores@, at as int);
            lemma_rank_insert_keeps_order(sorted@, p, scores@);
            assert(players@.take(i + 1).drop_last() =~= players@.take(i as int));
            assert(players@.take(i + 1).last() == players@[i as int]);
        }
        sorted.insert(at, p);
        i += 1;
    }
    assert(players@.take(i as int) =~= players@);
    sorted
}

/// The text of a decimal digit.
pub open spec fn digit_text(d: int) -> Seq<char> {
    if d == 0 {
        "0"@
    } else if d == 1 {
        "1"@
    } else if d == 2 {
        "2"@
    } else if d == 3 {
        "3"@
    } else if d == 4 {
        "4"@
    } else if d == 5 {
        "5"@
    } else if d == 6 {
        "6"@
    } else if d == 7 {
        "7"@
    } else if d == 8 {
        "8"@
    } else {
        "9"@
    }
}

/// The decimal digits of `n`, without leading zeros.
pub open spec fn decimal_text(n: nat) -> Seq<char>
    decreases n,
{
    if n < 10 {
        digit_text(n as int)
    } else {
        decimal_text(n / 10) + digit_text((n % 10) as int)
    }
}

/// An integer written in decimal, with a minus sign where it is negative.
pub open spec fn integer_text(i: int) -> Seq<char> {
    if i < 0 {
        "-"@ + decimal_text((-i) as nat)
    } else {
        decimal_text(i as nat)
    }
}

/// The line of the results screen for a player: its name and its points.
pub open spec fn result_line(p: Player, scores: Map<usize, i32>) -> Seq<char> {
    p.name@ + ": "@ + integer_text(player_score(scores, p)) + " pts"@
}

/// The text of a decimal digit.
fn digit_str(d: u64) -> (s: &'static str)
    requires
        d < 10,
    ensures
        s@ == digit_text(d as int),
{
    if d == 0 {
        "0"
    } else if d == 1 {
        "1"
    } else if d == 2 {
        "2"
    } else if d == 3 {
        "3"
    } else if d == 4 {
        "4"
    } else if d == 5 {
        "5"
    } else if d == 6 {
        "6"
    } else if d == 7 {
        "7"
    } else if d == 8 {
        "8"
    } else {
        "9"
    }
}

/// The number that a string of decimal digits stands for.
pub open spec fn decimal_value(s: Seq<char>) -> int
    decreases s.len(),
{
    if s.len() == 0 {
        0
    } else {
        decimal_value(s.drop_last()) * 10 + (s.last() as int - '0' as int)
    }
}

/// The text of digit `d` is the single character `'0' + d`.
pub proof fn lemma_digit_text_is_the_digit(d: int)
    requires
        0 <= d < 10,
    ensures
        digit_text(d).len() == 1,
        digit_text(d)[0] as int == '0' as int + d,
{
    reveal_strlit("0");
    reveal_strlit("1");
    reveal_strlit("2");
    reveal_strlit("3");
    reveal_strlit("4");
    reveal_strlit("5");
    reveal_strlit("6");
    reveal_strlit("7");
    reveal_strlit("8");
    reveal_strlit("9");
}

/// The decimal text of `n` is standard: one or more digits, no leading zero,
/// and read back as a decimal number it gives `n`.
pub proof fn lemma_decimal_text_reads_back(n: nat)
    ensures
        decimal_text(n).len() >= 1,
        forall|i: int|
            0 <= i < decimal_text(n).len() ==> '0' as int <= (#[trigger] decimal_text(n)[i]) as int
                <= '9' as int,
        decimal_text(n)[0] != '0' || n == 0,
        decimal_value(decimal_text(n)) == n,
    decreases n,
{
    if n < 10 {
        lemma_digit_text_is_the_digit(n as int);
        let s = decimal_text(n);
        assert(s.drop_last() =~= Seq::<char>::empty());
        assert(decimal_value(s.drop_last()) == 0);
        assert(decimal_value(s) == decimal_value(s.drop_last()) * 10 + (s.last() as int - '0' as int));
    } else {
        lemma_decimal_text_reads_back(n / 10);
        lemma_digit_text_is_the_digit((n % 10) as int);
        let head = decimal_text(n / 10);
        let s = decimal_text(n);
        assert(s == head + digit_text((n % 10) as int));
        assert(s.drop_last() =~= head);
        assert(s.last() == digit_text((n % 10) as int)[0]);
        assert(n == (n / 10) * 10 + n % 10) by (nonlinear_arith);
        assert forall|i: int| 0 <= i < s.len() implies '0' as int <= (#[trigger] s[i]) as int
            <= '9' as int by {
            if i < head.len() {
                assert(s[i] == head[i]);
            }
        }
        assert(s[0] == head[0]);
        assert(decimal_value(s) == decimal_value(head) * 10 + (s.last() as int - '0' as int));
    }
}

/// The text of an integer reads back as that integer: a minus sign before
/// the digits of its magnitude where it is negative, the digits alone
/// otherwise.
pub proof fn lemma_integer_text_reads_back(i: int)
    ensures
        i < 0 ==> integer_text(i)[0] == '-' && decimal_value(integer_text(i).drop_first()) == -i,
        i >= 0 ==> decimal_value(integer_text(i)) == i && integer_text(i)[0] != '-',
{
    reveal_strlit("-");
    if i < 0 {
        lemma_decimal_text_reads_back((-i) as nat);
        assert(integer_text(i).drop_first() =~= decimal_text((-i) as nat));
    } else {
        lemma_decimal_text_reads_back(i as nat);
    }
}

/// Writes the decimal digits of `n` after `out`.
fn push_decimal(out: &mut String, n: u64)
    ensures
        final(out)@ == old(out)@ + decimal_text(n as nat),
    decreases n,
{
    if n >= 10 {
        push_decimal(out, n / 10);
    }
    out.append(digit_str(n % 10));
    assert(final(out)@ =~= old(out)@ + decimal_text(n as nat));
}

/// Writes an integer in decimal after `out`.
fn push_integer(out: &mut String, i: i32)
    ensures
        final(out)@ == old(out)@ + integer_text(i as int),
{
    if i < 0 {
        out.append("-");
        let magnitude: u64 = (0i64 - (i as i64)) as u64;
        push_decimal(out, magnitude);
        assert(final(out)@ =~= old(out)@ + integer_text(i as int));
    } else {
        push_decimal(out, i as u64);
    }
}

/// The lines of the results screen: each player with its points, from
/// highest to lowest score.
pub fn result_lines(players: &Vec<Player>, scores: &HashMap<usize, i32>) -> (lines: Vec<String>)
    ensures
        lines@.len() == players@.len(),
        forall|i: int|
            0 <= i < lines@.len() ==> (#[trigger] lines@[i])@ == result_line(
                ranked(players@, scores@)[i],
                scores@,
            ),
{
    let ranking = rank_players(players, scores);
    proof {
        lemma_ranked_is_sorted_permutation(players@, scores@);
        vstd::seq_lib::to_multiset_len(players@);
        vstd::seq_lib::to_multiset_len(ranking@);
    }
    let mut lines: Vec<String> = Vec::new();
    let mut i: usize = 0;
    while i < ranking.len()
        invariant
            i <= ranking@.len(),
            ranking@ == ranked(players@, scores@),
            lines@.len() == i,
            forall|k: int|
                0 <= k < i ==> (#[trigger] lines@[k])@ == result_line(ranking@[k], scores@),
        decreases ranking.len() - i,
    {
        let p = &ranking[i];
        let mut line = String::new();
        line.append(p.name.as_str());
        line.append(": ");
        push_integer(&mut line, lookup_score(scores, p.id));
        line.append(" pts");
        assert(line@ =~= result_line(ranking@[i as int], scores@));
        lines.push(line);
        i += 1;
    }
    lines
}

} // verus!
