use std::collections::HashMap;
use vstd::prelude::*;

use crate::shuffle::{shuffle_texts, thread_rng};

verus! {

broadcast use vstd::std_specs::hash::group_hash_axioms;

/// A player, known by the number the server gave it when it joined.
#[derive(Debug)]
pub struct Player {
    pub id: usize,
    pub name: String,
}

/// A prompt handed to two players, with the answers they gave (keyed by the
/// player who answered) and the votes of the other players (voter to the
/// player voted for).
#[derive(Debug)]
pub struct Question {
    pub prompt: String,
    pub player_ids: (usize, usize),
    pub answers: HashMap<usize, String>,
    pub votes: HashMap<usize, usize>,
}

impl Clone for Player {
    fn clone(&self) -> (p: Self)
        ensures
            p == *self,
    {
        Player { id: self.id, name: self.name.clone() }
    }
}

impl Clone for Question {
    fn clone(&self) -> (q: Self)
        ensures
            q@ == self@,
    {
        Question {
            prompt: self.prompt.clone(),
            player_ids: self.player_ids,
            answers: self.answers.clone(),
            votes: self.votes.clone(),
        }
    }
}

/// What a question holds, as mathematical values.
#[verifier::ext_equal]
pub struct QuestionView {
    pub prompt: Seq<char>,
    pub player_ids: (usize, usize),
    pub answers: Map<usize, String>,
    pub votes: Map<usize, usize>,
}

impl View for Question {
    type V = QuestionView;

    open spec fn view(&self) -> QuestionView {
        QuestionView {
            prompt: self.prompt@,
            player_ids: self.player_ids,
            answers: self.answers@,
            votes: self.votes@,
        }
    }
}

/// The views of a list of questions.
pub open spec fn question_views(qs: Seq<Question>) -> Seq<QuestionView> {
    qs.map_values(|q: Question| q@)
}

/// The prompts of the game, in the order in which they are written down.
pub open spec fn prompt_texts() -> Seq<&'static str> {
    seq![
        "A new law states that everyone must __________ once a day.",
        "If I were a superhero, my useless power would be __________.",
        "The best way to spice up a boring wedding is __________.",
        "The title of my autobiography would be: 'The Man, The Myth, The __________.'",
        "I don't need a therapist, I just need __________.",
    ]
}

/// The prompts of the game, in the order in which they are written down.
pub fn default_prompts() -> (texts: Vec<&'static str>)
    ensures
        texts@ == prompt_texts(),
{
    vec![
        "A new law states that everyone must __________ once a day.",
        "If I were a superhero, my useless power would be __________.",
        "The best way to spice up a boring wedding is __________.",
        "The title of my autobiography would be: 'The Man, The Myth, The __________.'",
        "I don't need a therapist, I just need __________.",
    ]
}

/// The position after `i` in a ring of `n` places.
pub open spec fn ring_next(i: int, n: int) -> int {
    if i + 1 < n {
        i + 1
    } else {
        0
    }
}

/// The questions of a round: player `i` of `ids` answers question `i` together
/// with the next player of the ring, and question `i` asks prompt
/// `i mod prompts.len()`.
pub open spec fn built_questions(prompts: Seq<&str>, ids: Seq<usize>) -> Seq<QuestionView> {
    Seq::new(
        ids.len(),
        |i: int|
            QuestionView {
                prompt: prompts[i % (prompts.len() as int)]@,
                player_ids: (ids[i], ids[ring_next(i, ids.len() as int)]),
                answers: Map::empty(),
                votes: Map::empty(),
            },
    )
}

/// `qs` are the questions of a round for `ids`, with the prompts taken in some
/// order of the game's prompts.
pub open spec fn generated_for(qs: Seq<QuestionView>, ids: Seq<usize>) -> bool {
    exists|order: Seq<&'static str>|
        order.to_multiset() == prompt_texts().to_multiset() && #[trigger] built_questions(order, ids)
            == qs
}

/// Whether player `id` is one of the two players a question is handed to.
pub open spec fn is_author(q: QuestionView, id: usize) -> bool {
    q.player_ids.0 == id || q.player_ids.1 == id
}

/// The questions handed to player `id`, as their index and prompt, in order.
pub open spec fn assigned(qs: Seq<QuestionView>, id: usize) -> Seq<(usize, Seq<char>)>
    decreases qs.len(),
{
    if qs.len() == 0 {
        Seq::empty()
    } else {
        let rest = assigned(qs.drop_last(), id);
        if is_author(qs.last(), id) {
            rest.push(((qs.len() - 1) as usize, qs.last().prompt))
        } else {
            rest
        }
    }
}

/// The questions handed to player `id`, as their index and prompt.
pub fn questions_for(questions: &Vec<Question>, id: usize) -> (mine: Vec<(usize, String)>)
    ensures
        mine@.map_values(|p: (usize, String)| (p.0, p.1@)) == assigned(question_views(questions@), id),
{
    let mut mine: Vec<(usize, String)> = Vec::new();
    let mut i: usize = 0;
    while i < questions.len()
        invariant
            i <= questions@.len(),
            mine@.map_values(|p: (usize, String)| (p.0, p.1@)) == assigned(
                question_views(questions@).take(i as int),
                id,
            ),
        decreases questions.len() - i,
    {
        let ghost views = question_views(questions@);
        assert(views.take(i + 1).drop_last() =~= views.take(i as int));
        if questions[i].player_ids.0 == id || questions[i].player_ids.1 == id {
            mine.push((i, questions[i].prompt.clone()));
        }
        i += 1;
        assert(mine@.map_values(|p: (usize, String)| (p.0, p.1@)) =~= assigned(views.take(i as int), id));
    }
    assert(question_views(questions@).take(i as int) =~= question_views(questions@));
    mine
}

/// A player to whom no question is handed has no questions.
pub proof fn lemma_assigned_empty(qs: Seq<QuestionView>, id: usize)
    requires
        forall|i: int| 0 <= i < qs.len() ==> !is_author(#[trigger] qs[i], id),
    ensures
        assigned(qs, id).len() == 0,
    decreases qs.len(),
{
    if qs.len() > 0 {
        lemma_assigned_empty(qs.drop_last(), id);
    }
}

/// In a round for at least two distinct players, every question goes to two
/// different players, and player `k` answers exactly question `k` and the
/// question before it in the ring, so that each player writes two answers.
pub proof fn lemma_each_player_answers_twice(prompts: Seq<&str>, ids: Seq<usize>, k: int, i: int)
    requires
        ids.no_duplicates(),
        ids.len() >= 2,
        0 <= k < ids.len(),
        0 <= i < ids.len(),
    ensures
        built_questions(prompts, ids)[i].player_ids.0 != built_questions(prompts, ids)[i].player_ids.1,
        is_author(built_questions(prompts, ids)[i], ids[k]) <==> (i == k || ring_next(i, ids.len() as int)
            == k),
{
    let n = ids.len() as int;
    assert(ring_next(i, n) != i);
}

/// The questions of a round go round the ring of players: question `i` asks
/// prompt `i % prompts.len()` and is handed to player `i` and to player
/// `(i + 1) % n`, and, with the players all different and at least two of
/// them, player `k` answers exactly question `k` and question `k - 1` (the
/// last question for the first player).
pub proof fn lemma_round_ring(prompts: Seq<&str>, ids: Seq<usize>, i: int, k: int)
    requires
        0 <= i < ids.len(),
        0 <= k < ids.len(),
    ensures
        built_questions(prompts, ids).len() == ids.len(),
        built_questions(prompts, ids)[i].prompt == prompts[i % (prompts.len() as int)]@,
        built_questions(prompts, ids)[i].player_ids == (ids[i], ids[(i + 1) % (ids.len() as int)]),
        ids.no_duplicates() && ids.len() >= 2 ==> (is_author(built_questions(prompts, ids)[i], ids[k])
            <==> (i == k || (i + 1) % (ids.len() as int) == k)),
{
    let n = ids.len() as int;
    if i + 1 < n {
        vstd::arithmetic::div_mod::lemma_small_mod((i + 1) as nat, n as nat);
    } else {
        vstd::arithmetic::div_mod::lemma_mod_self_0(n);
    }
    assert(ring_next(i, n) == (i + 1) % n);
    if ids.no_duplicates() && ids.len() >= 2 {
        lemma_each_player_answers_twice(prompts, ids, k, i);
    }
}

/// The questions of a round, whatever the order of the prompts, go in the
/// ring of the players: one question per player, each to that player and the
/// next.
pub proof fn lemma_generated_ring(qs: Seq<QuestionView>, ids: Seq<usize>)
    requires
        generated_for(qs, ids),
    ensures
        qs.len() == ids.len(),
        forall|i: int|
            0 <= i < qs.len() ==> (#[trigger] qs[i]).player_ids == (
                ids[i],
                ids[ring_next(i, ids.len() as int)],
            ),
{
    let order = choose|order: Seq<&'static str>|
        order.to_multiset() == prompt_texts().to_multiset() && #[trigger] built_questions(order, ids)
            == qs;
    assert(qs == built_questions(order, ids));
}

/// Builds the questions of a round from the prompts in the given order.
pub fn build_questions(prompts: &Vec<&str>, players: &[usize]) -> (qs: Vec<Question>)
    requires
        prompts.len() > 0,
    ensures
        question_views(qs@) == built_questions(prompts@, players@),
{
    let n = players.len();
    let mut qs: Vec<Question> = Vec::new();
    let mut i: usize = 0;
    while i < n
        invariant
            n == players@.len(),
            prompts.len() > 0,
            i <= n,
            qs@.len() == i,
            forall|j: int| 0 <= j < i ==> #[trigger] qs@[j]@ == built_questions(prompts@, players@)[j],
        decreases n - i,
    {
        let text: &str = prompts[i % prompts.len()];
        let prompt = text.to_string();
        let next = (i + 1) % n;
        proof {
            if i + 1 < n {
                vstd::arithmetic::div_mod::lemma_small_mod((i + 1) as nat, n as nat);
            } else {
                assert((n as int) % (n as int) == 0) by (nonlinear_arith)
                    requires n > 0;
            }
        }
        qs.push(
            Question {
                prompt,
                player_ids: (players[i], players[next]),
                answers: HashMap::new(),
                votes: HashMap::new(),
            },
        );
        i += 1;
    }
    assert(question_views(qs@) =~= built_questions(prompts@, players@));
    qs
}

/// The questions of a new round: the game's prompts are shuffled, and player
/// `i` of `players` answers question `i` together with the next player.
pub fn generate_questions(players: &[usize], _round: u32) -> (qs: Vec<Question>)
    ensures
        generated_for(question_views(qs@), players@),
{
    let mut prompts = default_prompts();
    let mut rng = thread_rng();
    shuffle_texts(&mut prompts, &mut rng);
    proof {
        vstd::seq_lib::to_multiset_len(prompts@);
        vstd::seq_lib::to_multiset_len(prompt_texts());
    }
    let qs = build_questions(&prompts, players);
    assert(built_questions(prompts@, players@) == question_views(qs@));
    qs
}

} // verus!
