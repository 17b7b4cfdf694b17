use std::collections::HashMap;
use vstd::prelude::*;

use crate::phase::GamePhase;
use crate::scoring::{
    add_vote_points, points_per_vote, scores_with_votes, score_of, try_add_vote_points, vote_count,
    votes_fit,
};
use crate::questions::{
    Player, Question, QuestionView, question_views, generated_for, generate_questions, is_author,
    assigned, questions_for, lemma_assigned_empty, lemma_generated_ring, ring_next,
};

verus! {

broadcast use vstd::std_specs::hash::group_hash_axioms;

/// What the server sends after a step of the game.
#[derive(Clone, Copy, Debug, PartialEq, Eq, Structural)]
pub enum Reply {
    /// Nothing is sent.
    Nothing,
    /// The player who asked to join got this number: it is sent the whole
    /// state, and every client the lobby.
    Welcome { id: usize },
    /// Every client is sent the lobby: the phase, the players, and whether
    /// a game can start.
    Lobby,
    /// Every client is sent the state of the game; the question at
    /// `current_question_index` goes with it where `with_current_question`.
    Game { with_current_question: bool, current_question_index: usize },
    /// Every client is sent the time left.
    TimerTick { timer: u32 },
}

/// What a client asks of the server.
pub enum ClientMessage {
    Join { name: String },
    StartGame,
    SubmitAnswer { question_index: usize, answer: String },
    SubmitVote { question_index: usize, target_id: usize },
    ResetToLobby,
}

/// The fields of the server state, with no invariant of their own.
struct Game {
    players: HashMap<usize, Player>,
    scores: HashMap<usize, i32>,
    questions: Vec<Question>,
    current_question_index: usize,
    phase: GamePhase,
    timer: u32,
    round: u32,
    next_id: usize,
}

/// The state of the server as mathematical values.
#[verifier::ext_equal]
pub struct GameView {
    pub players: Map<usize, Player>,
    pub scores: Map<usize, i32>,
    pub questions: Seq<QuestionView>,
    pub current: usize,
    pub phase: GamePhase,
    pub timer: u32,
    pub round: u32,
    pub next_id: usize,
}

impl View for Game {
    type V = GameView;

    closed spec fn view(&self) -> GameView {
        GameView {
            players: self.players@,
            scores: self.scores@,
            questions: question_views(self.questions@),
            current: self.current_question_index,
            phase: self.phase,
            timer: self.timer,
            round: self.round,
            next_id: self.next_id,
        }
    }
}

/// Whether every question has two answers.
pub open spec fn all_answered(qs: Seq<QuestionView>) -> bool {
    forall|i: int| 0 <= i < qs.len() ==> (#[trigger] qs[i]).answers.len() == 2
}

impl GameView {
    /// The state of a server that has just started.
    pub open spec fn initial() -> GameView {
        GameView {
            players: Map::empty(),
            scores: Map::empty(),
            questions: Seq::empty(),
            current: 0,
            phase: GamePhase::Lobby,
            timer: 0,
            round: 1,
            next_id: 1,
        }
    }

    /// What every state of the server keeps: the players are numbered from 1
    /// up without gaps and never leave; the lobby holds no game (no
    /// questions, no scores, round 1); a game has at least three players and
    /// at least three questions, no more than there are players; the round is
    /// one of three; the question being voted on exists; scores are not
    /// negative; and every answer and vote comes from a player, no player
    /// voting on a question handed to them.
    pub open spec fn wf(self) -> bool {
        &&& self.players.dom().finite()
        &&& forall|id: usize| #[trigger] self.players.contains_key(id) <==> 1 <= id < self.next_id
        &&& forall|id: usize| #[trigger] self.players.contains_key(id) ==> self.players[id].id == id
        &&& self.players.len() + 1 == self.next_id
        &&& 1 <= self.round <= 3
        &&& self.phase == GamePhase::Lobby ==> {
            &&& self.questions.len() == 0
            &&& self.scores == Map::<usize, i32>::empty()
            &&& self.round == 1
            &&& self.current == 0
        }
        &&& self.phase != GamePhase::Lobby ==> {
            &&& self.players.len() >= 3
            &&& 3 <= self.questions.len() <= self.players.len()
        }
        &&& (self.phase == GamePhase::Voting || self.phase == GamePhase::Reveal) ==> self.current
            < self.questions.len()
        &&& forall|k: usize| #[trigger] self.scores.contains_key(k) ==> self.scores[k] >= 0
        &&& forall|i: int|
            0 <= i < self.questions.len() ==> (#[trigger] self.questions[i]).player_ids.0
                < self.next_id && self.questions[i].player_ids.1 < self.next_id
        &&& forall|i: int, a: usize|
            0 <= i < self.questions.len() && #[trigger] self.questions[i].answers.contains_key(a)
                ==> self.players.contains_key(a)
        &&& forall|i: int, v: usize|
            0 <= i < self.questions.len() && #[trigger] self.questions[i].votes.contains_key(v)
                ==> !is_author(self.questions[i], v) && self.players.contains_key(v)
    }

    /// Whether `sender` is a player of this server or a connection that has
    /// not joined: the number of a connection is one the server gave it.
    pub open spec fn knows(self, sender: Option<usize>) -> bool {
        sender matches Some(id) ==> self.players.contains_key(id)
    }

    /// Whether `sender` is the host of the lobby: the first player to join,
    /// who chooses when the game starts.
    pub open spec fn is_host(self, sender: Option<usize>) -> bool {
        sender == Some(1usize) && self.players.contains_key(1)
    }

    /// The players in the order of their numbers.
    pub open spec fn player_order(self) -> Seq<usize> {
        Seq::new((self.next_id - 1) as nat, |i: int| (i + 1) as usize)
    }

    /// Whether a game can start: at least three players have joined.
    pub open spec fn can_start(self) -> bool {
        self.players.len() >= 3
    }

    /// The state after a player named `name` joined: it gets the next number.
    pub open spec fn after_join(self, name: String) -> GameView {
        GameView {
            players: self.players.insert(self.next_id, Player { id: self.next_id, name }),
            next_id: (self.next_id + 1) as usize,
            ..self
        }
    }

    /// Whether a request of `sender` to start a game is granted: it comes
    /// from the host, and at least three players have joined.
    pub open spec fn starts(self, sender: Option<usize>) -> bool {
        self.is_host(sender) && self.can_start()
    }

    /// The state after `sender` asked to start a game; `fresh` are the
    /// questions drawn for the first round. Unless the host asks with at
    /// least three players there, nothing changes.
    pub open spec fn after_start(self, sender: Option<usize>, fresh: Seq<QuestionView>) -> GameView {
        if !self.starts(sender) {
            self
        } else {
            GameView {
                phase: GamePhase::Prompting,
                timer: 60,
                round: 1,
                scores: self.players.dom().mk_map(|k: usize| 0i32),
                questions: fresh,
                ..self
            }
        }
    }

    /// What is sent after `sender` asked to start a game.
    pub open spec fn start_reply(self, sender: Option<usize>) -> Reply {
        if !self.starts(sender) {
            Reply::Nothing
        } else {
            Reply::Game { with_current_question: false, current_question_index: 0 }
        }
    }

    /// Whether the coming second of the timer ends the last question of a
    /// round that is not the last round, so that a new round starts.
    pub open spec fn tick_starts_round(self) -> bool {
        &&& self.phase == GamePhase::Reveal
        &&& self.timer == 1
        &&& self.current + 1 >= self.questions.len()
        &&& self.round < 3
    }

    /// The state one second later; `fresh` are the questions drawn where a new
    /// round starts. Outside the lobby the timer runs down; where it reaches
    /// zero, prompting gives way to voting on the first question, voting to
    /// the reveal, and the reveal to voting on the next question, to a new
    /// round, or after the third round to the results.
    pub open spec fn after_tick(self, fresh: Seq<QuestionView>) -> GameView {
        if self.phase == GamePhase::Lobby || self.timer == 0 {
            self
        } else if self.timer > 1 {
            GameView { timer: (self.timer - 1) as u32, ..self }
        } else {
            match self.phase {
                GamePhase::Prompting => GameView {
                    phase: GamePhase::Voting,
                    current: 0,
                    timer: 10,
                    ..self
                },
                GamePhase::Voting => GameView { phase: GamePhase::Reveal, timer: 5, ..self },
                GamePhase::Reveal => if self.current + 1 >= self.questions.len() {
                    if self.round < 3 {
                        GameView {
                            round: (self.round + 1) as u32,
                            phase: GamePhase::Prompting,
                            timer: 60,
                            questions: fresh,
                            current: 0,
                            ..self
                        }
                    } else {
                        GameView {
                            phase: GamePhase::Results,
                            current: (self.current + 1) as usize,
                            timer: 0,
                            ..self
                        }
                    }
                } else {
                    GameView {
                        phase: GamePhase::Voting,
                        current: (self.current + 1) as usize,
                        timer: 10,
                        ..self
                    }
                },
                _ => GameView { timer: 0, ..self },
            }
        }
    }

    /// What is sent one second later: nothing in the lobby or with the timer
    /// run out, the whole state where the phase changed, and the time left
    /// otherwise.
    pub open spec fn tick_reply(self) -> Reply {
        if self.phase == GamePhase::Lobby || self.timer == 0 {
            Reply::Nothing
        } else if self.timer > 1 || self.phase == GamePhase::Results {
            Reply::TimerTick { timer: (self.timer - 1) as u32 }
        } else {
            Reply::Game {
                with_current_question: true,
                current_question_index: self.after_tick(self.questions).current,
            }
        }
    }

    /// The question after `sender` answered it, where it exists.
    pub open spec fn answered_questions(self, sender: Option<usize>, index: usize, answer: String) -> Seq<
        QuestionView,
    > {
        match sender {
            Some(id) => if index < self.questions.len() {
                self.questions.update(
                    index as int,
                    QuestionView {
                        answers: self.questions[index as int].answers.insert(id, answer),
                        ..self.questions[index as int]
                    },
                )
            } else {
                self.questions
            },
            None => self.questions,
        }
    }

    /// The state after `sender` answered question `index`. Answers count
    /// only while prompting; once every question has two answers, voting on
    /// the first question starts.
    pub open spec fn after_answer(self, sender: Option<usize>, index: usize, answer: String) -> GameView {
        if self.phase != GamePhase::Prompting {
            self
        } else {
            let qs = self.answered_questions(sender, index, answer);
            if all_answered(qs) {
                GameView {
                    questions: qs,
                    phase: GamePhase::Voting,
                    current: 0,
                    timer: 10,
                    ..self
                }
            } else {
                GameView { questions: qs, ..self }
            }
        }
    }

    /// What is sent after an answer: the whole state while prompting, with
    /// the current question where voting has started.
    pub open spec fn answer_reply(self, sender: Option<usize>, index: usize, answer: String) -> Reply {
        if self.phase != GamePhase::Prompting {
            Reply::Nothing
        } else {
            let next = self.after_answer(sender, index, answer);
            Reply::Game {
                with_current_question: next.phase != GamePhase::Prompting,
                current_question_index: next.current,
            }
        }
    }

    /// The question being voted on after `sender` voted for `target`: a vote
    /// counts unless the voter is one of the two players who answered it,
    /// and a second vote replaces the first.
    pub open spec fn voted_question(self, sender: Option<usize>, index: usize, target: usize) -> QuestionView {
        let q = self.questions[index as int];
        match sender {
            Some(id) => if !is_author(q, id) {
                QuestionView { votes: q.votes.insert(id, target), ..q }
            } else {
                q
            },
            None => q,
        }
    }

    /// Whether a vote is taken: while voting, on the question being voted on.
    pub open spec fn takes_vote(self, index: usize) -> bool {
        self.phase == GamePhase::Voting && self.current == index
    }

    /// Whether a vote is the last one the question waits for: every player
    /// but the two who answered it has voted.
    pub open spec fn vote_reveals(self, sender: Option<usize>, index: usize, target: usize) -> bool {
        &&& self.takes_vote(index)
        &&& index < self.questions.len()
        &&& self.voted_question(sender, index, target).votes.len() == self.players.len() - 2
    }

    /// Whether the scores that a vote would give stay within `i32`.
    pub open spec fn vote_fits(self, sender: Option<usize>, index: usize, target: usize) -> bool {
        self.vote_reveals(sender, index, target) ==> votes_fit(
            self.scores,
            self.voted_question(sender, index, target).votes,
            points_per_vote(self.round),
        )
    }

    /// The state after `sender` voted for `target` on question `index`. Once
    /// every player but the two who answered has voted, the answers are
    /// revealed and each vote gives `points_per_vote(round)` to the player
    /// voted for.
    pub open spec fn after_vote(self, sender: Option<usize>, index: usize, target: usize) -> GameView {
        if !self.takes_vote(index) || index >= self.questions.len() {
            self
        } else {
            let q = self.voted_question(sender, index, target);
            let qs = self.questions.update(index as int, q);
            if self.vote_reveals(sender, index, target) {
                GameView {
                    questions: qs,
                    phase: GamePhase::Reveal,
                    timer: 5,
                    scores: scores_with_votes(self.scores, q.votes, points_per_vote(self.round)),
                    ..self
                }
            } else {
                GameView { questions: qs, ..self }
            }
        }
    }

    /// What is sent after a vote: the whole state with the question being
    /// voted on, where the vote was taken.
    pub open spec fn vote_reply(self, index: usize) -> Reply {
        if self.takes_vote(index) {
            Reply::Game { with_current_question: true, current_question_index: self.current }
        } else {
            Reply::Nothing
        }
    }

    /// Whether the server can take a message: its sender is known, and no
    /// arithmetic overflows (a join needs a number left to give, a vote
    /// scores that fit in `i32`).
    pub open spec fn accepts(self, sender: Option<usize>, msg: ClientMessage) -> bool {
        &&& self.knows(sender)
        &&& match msg {
            ClientMessage::Join { .. } => self.next_id < usize::MAX,
            ClientMessage::SubmitVote { question_index, target_id } => self.vote_fits(
                sender,
                question_index,
                target_id,
            ),
            _ => true,
        }
    }

    /// The state after a message from `sender`; `fresh` are the questions
    /// drawn where a game starts.
    pub open spec fn after_message(self, sender: Option<usize>, msg: ClientMessage, fresh: Seq<
        QuestionView,
    >) -> GameView {
        match msg {
            ClientMessage::Join { name } => self.after_join(name),
            ClientMessage::StartGame => self.after_start(sender, fresh),
            ClientMessage::SubmitAnswer { question_index, answer } => self.after_answer(
                sender,
                question_index,
                answer,
            ),
            ClientMessage::SubmitVote { question_index, target_id } => self.after_vote(
                sender,
                question_index,
                target_id,
            ),
            ClientMessage::ResetToLobby => self.after_reset(),
        }
    }

    /// What is sent after a message from `sender`.
    pub open spec fn message_reply(self, sender: Option<usize>, msg: ClientMessage) -> Reply {
        match msg {
            ClientMessage::Join { .. } => Reply::Welcome { id: self.next_id },
            ClientMessage::StartGame => self.start_reply(sender),
            ClientMessage::SubmitAnswer { question_index, answer } => self.answer_reply(
                sender,
                question_index,
                answer,
            ),
            ClientMessage::SubmitVote { question_index, .. } => self.vote_reply(question_index),
            ClientMessage::ResetToLobby => Reply::Lobby,
        }
    }

    /// The state after a player asked to go back to the lobby.
    pub open spec fn after_reset(self) -> GameView {
        GameView {
            phase: GamePhase::Lobby,
            scores: Map::empty(),
            questions: Seq::empty(),
            current: 0,
            round: 1,
            ..self
        }
    }
}

/// A player who has just joined has no questions: the questions of a round
/// go to players who were there when it began.
pub proof fn lemma_new_player_has_no_questions(g: GameView, name: String)
    requires
        g.wf(),
        g.next_id < usize::MAX,
    ensures
        assigned(g.after_join(name).questions, g.next_id).len() == 0,
{
    let qs = g.after_join(name).questions;
    assert forall|i: int| 0 <= i < qs.len() implies !is_author(#[trigger] qs[i], g.next_id) by {
        assert(g.questions[i].player_ids.0 < g.next_id);
    }
    lemma_assigned_empty(qs, g.next_id);
}

/// Every player who joins gets a number that no player had, and the other
/// players keep theirs.
pub proof fn lemma_join_gives_new_number(g: GameView, name: String)
    requires
        g.wf(),
        g.next_id < usize::MAX,
    ensures
        !g.players.contains_key(g.next_id),
        g.after_join(name).players.len() == g.players.len() + 1,
        forall|id: usize| #[trigger] g.players.contains_key(id) ==> g.after_join(name).players[id] == g.players[id],
{
}

/// Time alone never changes the players or the scores: only votes score.
pub proof fn lemma_time_never_scores(g: GameView, fresh: Seq<QuestionView>)
    ensures
        g.after_tick(fresh).players == g.players,
        g.after_tick(fresh).scores == g.scores,
        g.after_tick(fresh).next_id == g.next_id,
{
}

/// Answers never change the players or the scores.
pub proof fn lemma_answers_never_score(g: GameView, sender: Option<usize>, index: usize, answer: String)
    ensures
        g.after_answer(sender, index, answer).players == g.players,
        g.after_answer(sender, index, answer).scores == g.scores,
{
}

/// The results come only at the end of the third round.
pub proof fn lemma_results_after_third_round(g: GameView, fresh: Seq<QuestionView>)
    requires
        g.wf(),
        g.phase != GamePhase::Results,
        g.after_tick(fresh).phase == GamePhase::Results,
    ensures
        g.round == 3,
        g.phase == GamePhase::Reveal,
        g.current + 1 == g.questions.len(),
{
}

/// A vote never takes points away: every score after it is at least what it
/// was, and no score is lost.
pub proof fn lemma_votes_only_add(g: GameView, sender: Option<usize>, index: usize, target: usize, t: usize)
    requires
        g.wf(),
        g.vote_fits(sender, index, target),
    ensures
        g.scores.contains_key(t) ==> g.after_vote(sender, index, target).scores.contains_key(t),
        score_of(g.scores, t) <= score_of(g.after_vote(sender, index, target).scores, t),
{
    if g.vote_reveals(sender, index, target) {
        let c = vote_count(g.voted_question(sender, index, target).votes, t);
        assert(points_per_vote(g.round) * c >= 0) by (nonlinear_arith)
            requires
                g.round >= 1,
        ;
    }
}

/// Only the host, the first player to join, starts a game: a request from
/// anyone else, or from a connection that has not joined, changes nothing
/// and is not answered.
pub proof fn lemma_only_host_starts(g: GameView, sender: Option<usize>, fresh: Seq<QuestionView>)
    requires
        g.wf(),
        sender != Some(1usize),
    ensures
        g.after_start(sender, fresh) == g,
        g.start_reply(sender) == Reply::Nothing,
{
}

/// No message removes a player or changes one, and numbers are never given
/// twice: `next_id` never goes down.
pub proof fn lemma_message_keeps_players(
    g: GameView,
    sender: Option<usize>,
    msg: ClientMessage,
    fresh: Seq<QuestionView>,
)
    requires
        g.wf(),
        g.accepts(sender, msg),
    ensures
        forall|k: usize| #[trigger] g.players.contains_key(k) ==> g.after_message(sender, msg, fresh).players.contains_key(k)
            && g.after_message(sender, msg, fresh).players[k] == g.players[k],
        g.after_message(sender, msg, fresh).next_id >= g.next_id,
{
}

/// Within a game scores only grow: apart from starting a game and going
/// back to the lobby, no message lowers a score or drops one.
pub proof fn lemma_scores_only_grow(
    g: GameView,
    sender: Option<usize>,
    msg: ClientMessage,
    fresh: Seq<QuestionView>,
    t: usize,
)
    requires
        g.wf(),
        g.accepts(sender, msg),
        !(msg is StartGame),
        !(msg is ResetToLobby),
    ensures
        g.scores.contains_key(t) ==> g.after_message(sender, msg, fresh).scores.contains_key(t),
        score_of(g.scores, t) <= score_of(g.after_message(sender, msg, fresh).scores, t),
{
    match msg {
        ClientMessage::SubmitVote { question_index, target_id } => {
            lemma_votes_only_add(g, sender, question_index, target_id, t);
        },
        _ => {},
    }
}

/// A vote that reveals its question in round `r` raises every player's score
/// by exactly `100 * r` for each vote the player got, and a vote that does
/// not reveal it changes no score.
pub proof fn lemma_vote_scores_hundred_per_round(
    g: GameView,
    sender: Option<usize>,
    index: usize,
    target: usize,
    t: usize,
)
    requires
        g.wf(),
        g.vote_fits(sender, index, target),
    ensures
        g.vote_reveals(sender, index, target) ==> score_of(
            g.after_vote(sender, index, target).scores,
            t,
        ) == score_of(g.scores, t) + 100 * g.round * vote_count(
            g.voted_question(sender, index, target).votes,
            t,
        ),
        g.vote_reveals(sender, index, target) ==> g.after_vote(sender, index, target).phase
            == GamePhase::Reveal && g.after_vote(sender, index, target).timer == 5,
        !g.vote_reveals(sender, index, target) ==> g.after_vote(sender, index, target).scores
            == g.scores,
{
    if g.vote_reveals(sender, index, target) {
        let c = vote_count(g.voted_question(sender, index, target).votes, t);
        assert(100 * g.round * c >= 0) by (nonlinear_arith)
            requires
                g.round >= 1,
        ;
        assert(points_per_vote(g.round) * c == 100 * g.round * c);
        if !g.scores.contains_key(t) && c == 0 {
            assert(100 * g.round * c == 0) by (nonlinear_arith)
                requires
                    c == 0,
            ;
        }
    }
}

/// A question handed to two different players is revealed once every other
/// player has voted on it, and not before: a vote on the question being
/// voted on moves the game to the reveal exactly when, counting that vote,
/// each player but the two who answered has a vote on it.
pub proof fn lemma_reveal_when_everyone_voted(
    g: GameView,
    sender: Option<usize>,
    index: usize,
    target: usize,
)
    requires
        g.wf(),
        g.knows(sender),
        g.phase == GamePhase::Voting,
        g.current == index,
        index < g.questions.len(),
        g.players.contains_key(g.questions[index as int].player_ids.0),
        g.players.contains_key(g.questions[index as int].player_ids.1),
        g.questions[index as int].player_ids.0 != g.questions[index as int].player_ids.1,
    ensures
        ({
            let h = g.after_vote(sender, index, target);
            let (a, b) = g.questions[index as int].player_ids;
            (h.phase == GamePhase::Reveal) <==> (forall|p: usize|
                #[trigger] g.players.contains_key(p) && p != a && p != b
                    ==> h.questions[index as int].votes.contains_key(p))
        }),
        g.after_vote(sender, index, target).phase != GamePhase::Reveal
            ==> g.after_vote(sender, index, target).phase == GamePhase::Voting,
{
    let h = g.after_vote(sender, index, target);
    let (a, b) = g.questions[index as int].player_ids;
    let q = g.voted_question(sender, index, target);
    let keys = q.votes.dom();
    let others = g.players.dom().remove(a).remove(b);
    assert(h.questions[index as int] == q);
    assert(keys.subset_of(others)) by {
        assert forall|v: usize| keys.contains(v) implies others.contains(v) by {
            if !g.questions[index as int].votes.contains_key(v) {
                assert(sender == Some(v));
            }
        }
    }
    assert(others.finite());
    assert(others.len() == g.players.len() - 2);
    vstd::set_lib::lemma_len_subset(keys, others);
    if forall|p: usize|
        #[trigger] g.players.contains_key(p) && p != a && p != b ==> q.votes.contains_key(p) {
        assert(keys =~= others);
    }
    if h.phase == GamePhase::Reveal {
        assert forall|p: usize| #[trigger]
            g.players.contains_key(p) && p != a && p != b implies q.votes.contains_key(p) by {
            if !keys.contains(p) {
                assert(keys.subset_of(others.remove(p)));
                vstd::set_lib::lemma_len_subset(keys, others.remove(p));
            }
        }
    }
}

/// A vote message from a player who did not answer the question being
/// voted on is recorded on that question, and answered with the whole state
/// and that question.
pub proof fn lemma_vote_message_is_recorded(
    g: GameView,
    voter: usize,
    index: usize,
    target: usize,
    fresh: Seq<QuestionView>,
)
    requires
        g.wf(),
        g.phase == GamePhase::Voting,
        g.current == index,
        g.players.contains_key(voter),
        !is_author(g.questions[index as int], voter),
    ensures
        ({
            let h = g.after_message(
                Some(voter),
                ClientMessage::SubmitVote { question_index: index, target_id: target },
                fresh,
            );
            &&& h.questions.len() == g.questions.len()
            &&& h.questions[index as int].votes.contains_key(voter)
            &&& h.questions[index as int].votes[voter] == target
            &&& forall|v: usize|
                v != voter && #[trigger] g.questions[index as int].votes.contains_key(v) ==> h.questions[index as int].votes.contains_key(v)
                    && h.questions[index as int].votes[v] == g.questions[index as int].votes[v]
        }),
        g.message_reply(
            Some(voter),
            ClientMessage::SubmitVote { question_index: index, target_id: target },
        ) == (Reply::Game { with_current_question: true, current_question_index: index }),
{
}

/// An answer message while prompting, from a player on a question that
/// exists, is stored as that player's answer to it; every other question
/// keeps its answers.
pub proof fn lemma_answer_message_is_recorded(
    g: GameView,
    player: usize,
    index: usize,
    answer: String,
    fresh: Seq<QuestionView>,
)
    requires
        g.wf(),
        g.phase == GamePhase::Prompting,
        index < g.questions.len(),
        g.players.contains_key(player),
    ensures
        ({
            let h = g.after_message(
                Some(player),
                ClientMessage::SubmitAnswer { question_index: index, answer },
                fresh,
            );
            &&& h.questions.len() == g.questions.len()
            &&& h.questions[index as int].answers.contains_key(player)
            &&& h.questions[index as int].answers[player] == answer
            &&& forall|j: int|
                0 <= j < g.questions.len() && j != index ==> #[trigger] h.questions[j].answers
                    == g.questions[j].answers
        }),
        g.message_reply(
            Some(player),
            ClientMessage::SubmitAnswer { question_index: index, answer },
        ) is Game,
{
}

/// Prompting gives way to voting on the first question exactly when, after
/// an answer, every question holds two answers; while any question holds
/// fewer, prompting goes on.
pub proof fn lemma_voting_starts_when_all_answered(
    g: GameView,
    sender: Option<usize>,
    index: usize,
    answer: String,
)
    requires
        g.wf(),
        g.phase == GamePhase::Prompting,
    ensures
        ({
            let h = g.after_answer(sender, index, answer);
            &&& (h.phase == GamePhase::Voting) <==> (forall|j: int|
                0 <= j < h.questions.len() ==> (#[trigger] h.questions[j]).answers.len() == 2)
            &&& h.phase != GamePhase::Voting ==> h.phase == GamePhase::Prompting && h.timer
                == g.timer
            &&& h.phase == GamePhase::Voting ==> h.current == 0 && h.timer == 10
        }),
{
    let qs = g.answered_questions(sender, index, answer);
    let h = g.after_answer(sender, index, answer);
    assert(h.questions == qs);
    if !all_answered(qs) {
        let j = choose|j: int| 0 <= j < qs.len() && (#[trigger] qs[j]).answers.len() != 2;
        assert(h.questions[j].answers.len() != 2);
    }
}

/// The host starts a game with any number of players from three up: the
/// lobby moves to prompting in round 1 with 60 seconds, every player's score
/// at zero and the drawn questions; with fewer than three nothing changes.
pub proof fn lemma_host_starts_with_three_or_more(g: GameView, fresh: Seq<QuestionView>)
    requires
        g.wf(),
    ensures
        g.players.len() >= 3 ==> {
            let h = g.after_message(Some(1usize), ClientMessage::StartGame, fresh);
            &&& h.phase == GamePhase::Prompting
            &&& h.round == 1
            &&& h.timer == 60
            &&& h.questions == fresh
            &&& h.players == g.players
            &&& forall|id: usize| #[trigger] h.scores.contains_key(id) <==> g.players.contains_key(id)
            &&& forall|id: usize| #[trigger] h.scores.contains_key(id) ==> h.scores[id] == 0
            &&& g.message_reply(Some(1usize), ClientMessage::StartGame) == (Reply::Game {
                with_current_question: false,
                current_question_index: 0,
            })
        },
        g.players.len() < 3 ==> g.after_message(Some(1usize), ClientMessage::StartGame, fresh) == g
            && g.message_reply(Some(1usize), ClientMessage::StartGame) == Reply::Nothing,
{
    if g.players.len() >= 3 {
        assert(g.players.contains_key(1));
    }
}

/// A join message adds the player under the next number, which the reply
/// names; going back to the lobby empties the game and keeps the players.
pub proof fn lemma_join_and_reset_messages(
    g: GameView,
    sender: Option<usize>,
    name: String,
    fresh: Seq<QuestionView>,
)
    requires
        g.wf(),
        g.next_id < usize::MAX,
    ensures
        ({
            let h = g.after_message(sender, ClientMessage::Join { name }, fresh);
            &&& h.players.contains_key(g.next_id)
            &&& h.players[g.next_id] == (Player { id: g.next_id, name })
            &&& h.players.len() == g.players.len() + 1
            &&& h.phase == g.phase && h.scores == g.scores && h.questions == g.questions
        }),
        g.message_reply(sender, ClientMessage::Join { name }) == (Reply::Welcome { id: g.next_id }),
        ({
            let h = g.after_message(sender, ClientMessage::ResetToLobby, fresh);
            &&& h.phase == GamePhase::Lobby
            &&& h.players == g.players
            &&& h.scores == Map::<usize, i32>::empty()
            &&& h.questions.len() == 0
            &&& h.round == 1
        }),
        g.message_reply(sender, ClientMessage::ResetToLobby) == Reply::Lobby,
{
}

/// The timer: outside the lobby each second counts down by one. Prompting
/// lasts 60 seconds and gives way to voting on the first question for 10
/// seconds; voting gives way to the reveal for 5 seconds; the reveal gives
/// way to voting on the next question, or after the last question to a new
/// round of prompting (60 seconds, the next round, the drawn questions), or
/// after the third round to the results. The whole state is sent when the
/// phase changes, the time left otherwise.
pub proof fn lemma_timer_runs_the_game(g: GameView, fresh: Seq<QuestionView>)
    requires
        g.wf(),
    ensures
        ({
            let h = g.after_tick(fresh);
            let r = g.tick_reply();
            &&& (g.phase == GamePhase::Lobby || g.timer == 0) ==> h == g && r == Reply::Nothing
            &&& (g.phase != GamePhase::Lobby && g.timer > 1) ==> h.phase == g.phase && h.timer + 1
                == g.timer && h.questions == g.questions && h.current == g.current && h.round
                == g.round && r == (Reply::TimerTick { timer: h.timer })
            &&& (g.phase == GamePhase::Prompting && g.timer == 1) ==> h.phase == GamePhase::Voting
                && h.current == 0 && h.timer == 10 && h.questions == g.questions && r == (
            Reply::Game { with_current_question: true, current_question_index: 0 })
            &&& (g.phase == GamePhase::Voting && g.timer == 1) ==> h.phase == GamePhase::Reveal
                && h.current == g.current && h.timer == 5 && h.questions == g.questions && r == (
            Reply::Game { with_current_question: true, current_question_index: g.current })
            &&& (g.phase == GamePhase::Reveal && g.timer == 1 && g.current + 1 < g.questions.len())
                ==> h.phase == GamePhase::Voting && h.current == g.current + 1 && h.timer == 10
                && h.questions == g.questions && h.round == g.round && r == (Reply::Game {
                with_current_question: true,
                current_question_index: h.current,
            })
            &&& (g.phase == GamePhase::Reveal && g.timer == 1 && g.current + 1 == g.questions.len()
                && g.round < 3) ==> h.phase == GamePhase::Prompting && h.round == g.round + 1
                && h.timer == 60 && h.current == 0 && h.questions == fresh && r == (Reply::Game {
                with_current_question: true,
                current_question_index: 0,
            })
            &&& (g.phase == GamePhase::Reveal && g.timer == 1 && g.current + 1 == g.questions.len()
                && g.round == 3) ==> h.phase == GamePhase::Results && h.timer == 0
            &&& (g.phase == GamePhase::Results && g.timer == 1) ==> h.phase == GamePhase::Results
                && h.timer == 0 && r == (Reply::TimerTick { timer: 0 })
            &&& h.players == g.players && h.scores == g.scores
        }),
{
}

impl Game {
    /// A server with no players, in the lobby.
    fn new() -> (s: Game)
        ensures
            s@ == GameView::initial(),
            s@.wf(),
    {
        let s = Game {
            players: HashMap::new(),
            scores: HashMap::new(),
            questions: Vec::new(),
            current_question_index: 0,
            phase: GamePhase::Lobby,
            timer: 0,
            round: 1,
            next_id: 1,
        };
        assert(question_views(s.questions@) =~= Seq::empty());
        s
    }

    /// A new player joins under `name`; it gets the next number, which is
    /// returned.
    fn join(&mut self, name: String) -> (id: usize)
        requires
            old(self)@.wf(),
            old(self)@.next_id < usize::MAX,
        ensures
            id == old(self)@.next_id,
            final(self)@ == old(self)@.after_join(name),
            final(self)@.wf(),
    {
        let id = self.next_id;
        self.next_id = self.next_id + 1;
        self.players.insert(id, Player { id, name });
        id
    }

    /// The numbers of the players in increasing order.
    fn player_ids(&self) -> (ids: Vec<usize>)
        requires
            self@.wf(),
        ensures
            ids@ == self@.player_order(),
    {
        let mut ids: Vec<usize> = Vec::new();
        let mut id: usize = 1;
        while id < self.next_id
            invariant
                1 <= id <= self.next_id,
                ids@ == Seq::new((id - 1) as nat, |i: int| (i + 1) as usize),
            decreases self.next_id - id,
        {
            ids.push(id);
            id += 1;
            assert(ids@ =~= Seq::new((id - 1) as nat, |i: int| (i + 1) as usize));
        }
        ids
    }

    /// Player `sender` asks to start a game. Where it is the host and at
    /// least three players have joined, every score is set to zero and the
    /// questions of the first round are drawn; otherwise nothing happens.
    fn start_game(&mut self, sender: Option<usize>) -> (r: Reply)
        requires
            old(self)@.wf(),
        ensures
            final(self)@ == old(self)@.after_start(sender, final(self)@.questions),
            old(self)@.starts(sender) ==> generated_for(
                final(self)@.questions,
                old(self)@.player_order(),
            ),
            r == old(self)@.start_reply(sender),
            final(self)@.wf(),
    {
        let from_host = match sender {
            Some(id) => id == 1 && self.players.contains_key(&id),
            None => false,
        };
        if !from_host || self.players.len() < 3 {
            return Reply::Nothing;
        }
        let ids = self.player_ids();
        self.phase = GamePhase::Prompting;
        self.timer = 60;
        self.round = 1;
        let mut scores: HashMap<usize, i32> = HashMap::new();
        let mut k: usize = 0;
        while k < ids.len()
            invariant
                ids@ == old(self)@.player_order(),
                k <= ids@.len(),
                scores@ == Map::new(|id: usize| 1 <= id < k + 1, |id: usize| 0i32),
            decreases ids.len() - k,
        {
            scores.insert(ids[k], 0);
            k += 1;
            assert(scores@ =~= Map::new(|id: usize| 1 <= id < k + 1, |id: usize| 0i32));
        }
        assert(scores@ =~= old(self)@.players.dom().mk_map(|id: usize| 0i32));
        self.scores = scores;
        self.questions = generate_questions(ids.as_slice(), self.round);
        proof {
            lemma_generated_ring(self@.questions, ids@);
            assert forall|i: int| 0 <= i < self@.questions.len() implies (
            #[trigger] self@.questions[i]).player_ids.0 < self@.next_id && self@.questions[i].player_ids.1
                < self@.next_id by {
                assert(ids@[ring_next(i, ids@.len() as int)] < self.next_id);
            }
        }
        Reply::Game { with_current_question: false, current_question_index: 0 }
    }

    /// One second passes. Outside the lobby the timer runs down; where it
    /// reaches zero the phase moves on, and a new round draws new questions.
    fn tick(&mut self) -> (r: Reply)
        requires
            old(self)@.wf(),
        ensures
            final(self)@ == old(self)@.after_tick(final(self)@.questions),
            old(self)@.tick_starts_round() ==> generated_for(
                final(self)@.questions,
                old(self)@.player_order(),
            ),
            r == old(self)@.tick_reply(),
            final(self)@.wf(),
    {
        if self.phase != GamePhase::Lobby && self.timer > 0 {
            self.timer = self.timer - 1;
            let mut changed = false;
            if self.timer == 0 {
                match self.phase {
                    GamePhase::Prompting => {
                        self.phase = GamePhase::Voting;
                        self.current_question_index = 0;
                        self.timer = 10;
                        changed = true;
                    },
                    GamePhase::Voting => {
                        self.phase = GamePhase::Reveal;
                        self.timer = 5;
                        changed = true;
                    },
                    GamePhase::Reveal => {
                        assert(old(self)@.current < old(self)@.questions.len());
                        let count = self.questions.len();
                        assert(self.current_question_index < count);
                        self.current_question_index = self.current_question_index + 1;
                        if self.current_question_index >= self.questions.len() {
                            if self.round < 3 {
                                self.round = self.round + 1;
                                self.phase = GamePhase::Prompting;
                                self.timer = 60;
                                let ids = self.player_ids();
                                self.questions = generate_questions(ids.as_slice(), self.round);
                                self.current_question_index = 0;
                                proof {
                                    lemma_generated_ring(self@.questions, ids@);
                                    assert forall|i: int|
                                        0 <= i < self@.questions.len() implies (
                                    #[trigger] self@.questions[i]).player_ids.0 < self@.next_id
                                        && self@.questions[i].player_ids.1 < self@.next_id by {
                                        assert(ids@[ring_next(i, ids@.len() as int)] < self.next_id);
                                    }
                                }
                            } else {
                                self.phase = GamePhase::Results;
                            }
                        } else {
                            self.phase = GamePhase::Voting;
                            self.timer = 10;
                        }
                        changed = true;
                    },
                    _ => {},
                }
            }
            if changed {
                Reply::Game {
                    with_current_question: true,
                    current_question_index: self.current_question_index,
                }
            } else {
                Reply::TimerTick { timer: self.timer }
            }
        } else {
            Reply::Nothing
        }
    }

    /// Whether every question of the round has two answers.
    fn every_question_answered(&self) -> (b: bool)
        ensures
            b == all_answered(self@.questions),
    {
        let mut i: usize = 0;
        while i < self.questions.len()
            invariant
                i <= self.questions@.len(),
                forall|j: int| 0 <= j < i ==> (#[trigger] self@.questions[j]).answers.len() == 2,
            decreases self.questions.len() - i,
        {
            if self.questions[i].answers.len() != 2 {
                assert(self@.questions[i as int] == self.questions@[i as int]@);
                return false;
            }
            i += 1;
        }
        true
    }

    /// Player `sender` answers question `question_index`. Only while
    /// prompting; once every question has two answers voting starts.
    fn submit_answer(&mut self, sender: Option<usize>, question_index: usize, answer: String) -> (r:
        Reply)
        requires
            old(self)@.wf(),
            old(self)@.knows(sender),
        ensures
            final(self)@ == old(self)@.after_answer(sender, question_index, answer),
            r == old(self)@.answer_reply(sender, question_index, answer),
            final(self)@.wf(),
    {
        if self.phase == GamePhase::Prompting {
            if question_index < self.questions.len() {
                if let Some(id) = sender {
                    let ghost before = self.questions@;
                    self.questions[question_index].answers.insert(id, answer);
                    assert(question_views(self.questions@) =~= question_views(before).update(
                        question_index as int,
                        QuestionView {
                            answers: question_views(before)[question_index as int].answers.insert(
                                id,
                                answer,
                            ),
                            ..question_views(before)[question_index as int]
                        },
                    ));
                }
            }
            if self.every_question_answered() {
                self.phase = GamePhase::Voting;
                self.current_question_index = 0;
                self.timer = 10;
            }
            Reply::Game {
                with_current_question: self.phase != GamePhase::Prompting,
                current_question_index: self.current_question_index,
            }
        } else {
            Reply::Nothing
        }
    }

    /// Player `sender` votes for `target` on question `question_index`. Only
    /// while voting on that question; a player who answered it cannot vote
    /// on it. Once every other player has voted the answers are revealed and
    /// the votes scored.
    fn submit_vote(&mut self, sender: Option<usize>, question_index: usize, target_id: usize) -> (r:
        Reply)
        requires
            old(self)@.wf(),
            old(self)@.knows(sender),
            old(self)@.vote_fits(sender, question_index, target_id),
        ensures
            final(self)@ == old(self)@.after_vote(sender, question_index, target_id),
            r == old(self)@.vote_reply(question_index),
            final(self)@.wf(),
    {
        let num_players = self.players.len();
        if self.phase == GamePhase::Voting && self.current_question_index == question_index {
            let mut should_reveal = false;
            if question_index < self.questions.len() {
                if let Some(id) = sender {
                    if self.questions[question_index].player_ids.0 != id
                        && self.questions[question_index].player_ids.1 != id {
                        let ghost before = self.questions@;
                        self.questions[question_index].votes.insert(id, target_id);
                        assert(question_views(self.questions@) =~= question_views(before).update(
                            question_index as int,
                            old(self)@.voted_question(sender, question_index, target_id),
                        ));
                    }
                }
                if self.questions[question_index].votes.len() == num_players - 2 {
                    should_reveal = true;
                }
            }
            assert(self@.questions =~= old(self)@.questions.update(
                question_index as int,
                old(self)@.voted_question(sender, question_index, target_id),
            ));
            if should_reveal {
                self.phase = GamePhase::Reveal;
                self.timer = 5;
                let points: i32 = 100 * (self.round as i32);
                add_vote_points(&mut self.scores, &self.questions[question_index].votes, points);
            }
            Reply::Game { with_current_question: true, current_question_index: self.current_question_index }
        } else {
            Reply::Nothing
        }
    }

    /// Takes a message from a client; `sender` is the number of the player
    /// on that connection, where it has joined.
    fn handle(&mut self, sender: Option<usize>, msg: ClientMessage) -> (r: Reply)
        requires
            old(self)@.wf(),
            old(self)@.accepts(sender, msg),
        ensures
            final(self)@ == old(self)@.after_message(sender, msg, final(self)@.questions),
            msg is StartGame && old(self)@.starts(sender) ==> generated_for(
                final(self)@.questions,
                old(self)@.player_order(),
            ),
            r == old(self)@.message_reply(sender, msg),
            final(self)@.wf(),
    {
        match msg {
            ClientMessage::Join { name } => {
                let id = self.join(name);
                Reply::Welcome { id }
            },
            ClientMessage::StartGame => self.start_game(sender),
            ClientMessage::SubmitAnswer { question_index, answer } => self.submit_answer(
                sender,
                question_index,
                answer,
            ),
            ClientMessage::SubmitVote { question_index, target_id } => self.submit_vote(
                sender,
                question_index,
                target_id,
            ),
            ClientMessage::ResetToLobby => self.reset_to_lobby(),
        }
    }

    /// Whether a vote would give scores that fit in `i32`.
    fn vote_fits(&self, sender: Option<usize>, question_index: usize, target_id: usize) -> (b: bool)
        requires
            self@.wf(),
        ensures
            b == self@.vote_fits(sender, question_index, target_id),
    {
        if self.phase != GamePhase::Voting || self.current_question_index != question_index
            || question_index >= self.questions.len() {
            return true;
        }
        let q = &self.questions[question_index];
        let mut votes = q.votes.clone();
        if let Some(id) = sender {
            if q.player_ids.0 != id && q.player_ids.1 != id {
                votes.insert(id, target_id);
            }
        }
        assert(votes@ == self@.voted_question(sender, question_index, target_id).votes);
        if votes.len() != self.players.len() - 2 {
            return true;
        }
        let mut scores = self.scores.clone();
        assert(scores@ == self@.scores);
        let points: i32 = 100 * (self.round as i32);
        try_add_vote_points(&mut scores, &votes, points)
    }

    /// Whether the server can take a message without an arithmetic overflow.
    fn accepts(&self, sender: Option<usize>, msg: &ClientMessage) -> (b: bool)
        requires
            self@.wf(),
        ensures
            b == self@.accepts(sender, *msg),
    {
        let known = match sender {
            Some(id) => self.players.contains_key(&id),
            None => true,
        };
        known && match msg {
            ClientMessage::Join { .. } => self.next_id < usize::MAX,
            ClientMessage::SubmitVote { question_index, target_id } => self.vote_fits(
                sender,
                *question_index,
                *target_id,
            ),
            _ => true,
        }
    }

    /// Everyone goes back to the lobby: scores and questions are dropped, the
    /// players stay.
    fn reset_to_lobby(&mut self) -> (r: Reply)
        requires
            old(self)@.wf(),
        ensures
            final(self)@ == old(self)@.after_reset(),
            final(self)@.wf(),
            r == Reply::Lobby,
    {
        self.phase = GamePhase::Lobby;
        self.scores.clear();
        self.questions.clear();
        self.current_question_index = 0;
        self.round = 1;
        assert(question_views(self.questions@) =~= Seq::empty());
        Reply::Lobby
    }

    /// The players, in the order of their numbers.
    fn players_sorted(&self) -> (ps: Vec<Player>)
        requires
            self@.wf(),
        ensures
            ps@.len() == self@.players.len(),
            forall|i: int| 0 <= i < ps@.len() ==> #[trigger] ps@[i] == self@.players[(i + 1) as usize],
    {
        let mut ps: Vec<Player> = Vec::new();
        let mut id: usize = 1;
        while id < self.next_id
            invariant
                self@.wf(),
                1 <= id <= self.next_id,
                ps@.len() == id - 1,
                forall|i: int| 0 <= i < ps@.len() ==> #[trigger] ps@[i] == self@.players[(i + 1) as usize],
            decreases self.next_id - id,
        {
            assert(self@.players.contains_key(id));
            let p = self.players.get(&id).unwrap().clone();
            ps.push(p);
            id += 1;
        }
        ps
    }
}

/// The state of the server: the players, their scores, the questions of the
/// round, the phase and its timer. It always keeps `GameView::wf`.
pub struct GameState {
    game: Game,
}

impl View for GameState {
    type V = GameView;

    closed spec fn view(&self) -> GameView {
        self.game@
    }
}

impl GameState {
    #[verifier::type_invariant]
    spec fn well_formed(self) -> bool {
        self.game@.wf()
    }

    /// A server with no players, in the lobby.
    pub fn new() -> (s: GameState)
        ensures
            s@ == GameView::initial(),
            s@.wf(),
    {
        GameState { game: Game::new() }
    }

    /// A new player joins under `name`; it gets the next number, which is
    /// returned.
    pub fn join(&mut self, name: String) -> (id: usize)
        requires
            old(self)@.next_id < usize::MAX,
        ensures
            id == old(self)@.next_id,
            final(self)@ == old(self)@.after_join(name),
            final(self)@.wf(),
    {
        proof {
            use_type_invariant(&*self);
        }
        let mut game = Game::new();
        std::mem::swap(&mut self.game, &mut game);
        let id = game.join(name);
        self.game = game;
        id
    }

    /// Player `sender` asks to start a game. Where it is the host and at
    /// least three players have joined, every score is set to zero and the
    /// questions of the first round are drawn; otherwise nothing happens.
    pub fn start_game(&mut self, sender: Option<usize>) -> (r: Reply)
        ensures
            final(self)@ == old(self)@.after_start(sender, final(self)@.questions),
            old(self)@.starts(sender) ==> generated_for(
                final(self)@.questions,
                old(self)@.player_order(),
            ),
            r == old(self)@.start_reply(sender),
            final(self)@.wf(),
    {
        proof {
            use_type_invariant(&*self);
        }
        let mut game = Game::new();
        std::mem::swap(&mut self.game, &mut game);
        let r = game.start_game(sender);
        self.game = game;
        r
    }

    /// One second passes. Outside the lobby the timer runs down; where it
    /// reaches zero the phase moves on, and a new round draws new questions.
    pub fn tick(&mut self) -> (r: Reply)
        ensures
            final(self)@ == old(self)@.after_tick(final(self)@.questions),
            old(self)@.tick_starts_round() ==> generated_for(
                final(self)@.questions,
                old(self)@.player_order(),
            ),
            r == old(self)@.tick_reply(),
            final(self)@.wf(),
    {
        proof {
            use_type_invariant(&*self);
        }
        let mut game = Game::new();
        std::mem::swap(&mut self.game, &mut game);
        let r = game.tick();
        self.game = game;
        r
    }

    /// Player `sender` answers question `question_index`. Only while
    /// prompting; once every question has two answers voting starts.
    pub fn submit_answer(&mut self, sender: Option<usize>, question_index: usize, answer: String) -> (r:
        Reply)
        requires
            old(self)@.knows(sender),
        ensures
            final(self)@ == old(self)@.after_answer(sender, question_index, answer),
            r == old(self)@.answer_reply(sender, question_index, answer),
            final(self)@.wf(),
    {
        proof {
            use_type_invariant(&*self);
        }
        let mut game = Game::new();
        std::mem::swap(&mut self.game, &mut game);
        let r = game.submit_answer(sender, question_index, answer);
        self.game = game;
        r
    }

    /// Player `sender` votes for `target_id` on question `question_index`.
    /// Only while voting on that question; a player who answered it cannot
    /// vote on it. Once every other player has voted the answers are
    /// revealed and the votes scored.
    pub fn submit_vote(&mut self, sender: Option<usize>, question_index: usize, target_id: usize) -> (r:
        Reply)
        requires
            old(self)@.knows(sender),
            old(self)@.vote_fits(sender, question_index, target_id),
        ensures
            final(self)@ == old(self)@.after_vote(sender, question_index, target_id),
            r == old(self)@.vote_reply(question_index),
            final(self)@.wf(),
    {
        proof {
            use_type_invariant(&*self);
        }
        let mut game = Game::new();
        std::mem::swap(&mut self.game, &mut game);
        let r = game.submit_vote(sender, question_index, target_id);
        self.game = game;
        r
    }

    /// Everyone goes back to the lobby: scores and questions are dropped, the
    /// players stay.
    pub fn reset_to_lobby(&mut self) -> (r: Reply)
        ensures
            final(self)@ == old(self)@.after_reset(),
            final(self)@.wf(),
            r == Reply::Lobby,
    {
        proof {
            use_type_invariant(&*self);
        }
        let mut game = Game::new();
        std::mem::swap(&mut self.game, &mut game);
        let r = game.reset_to_lobby();
        self.game = game;
        r
    }

    /// Takes a message from a client; `sender` is the number of the player
    /// on that connection, where it has joined.
    pub fn handle(&mut self, sender: Option<usize>, msg: ClientMessage) -> (r: Reply)
        requires
            old(self)@.accepts(sender, msg),
        ensures
            final(self)@ == old(self)@.after_message(sender, msg, final(self)@.questions),
            msg is StartGame && old(self)@.starts(sender) ==> generated_for(
                final(self)@.questions,
                old(self)@.player_order(),
            ),
            r == old(self)@.message_reply(sender, msg),
            final(self)@.wf(),
    {
        proof {
            use_type_invariant(&*self);
        }
        let mut game = Game::new();
        std::mem::swap(&mut self.game, &mut game);
        let r = game.handle(sender, msg);
        self.game = game;
        r
    }

    /// Whether a vote would give scores that fit in `i32`.
    pub fn vote_fits(&self, sender: Option<usize>, question_index: usize, target_id: usize) -> (b: bool)
        ensures
            b == self@.vote_fits(sender, question_index, target_id),
    {
        proof {
            use_type_invariant(self);
        }
        self.game.vote_fits(sender, question_index, target_id)
    }

    /// Whether the server can take a message: its sender is known and no
    /// arithmetic overflows.
    pub fn accepts(&self, sender: Option<usize>, msg: &ClientMessage) -> (b: bool)
        ensures
            b == self@.accepts(sender, *msg),
    {
        proof {
            use_type_invariant(self);
        }
        self.game.accepts(sender, msg)
    }

    /// The players, in the order of their numbers.
    pub fn players_sorted(&self) -> (ps: Vec<Player>)
        ensures
            ps@.len() == self@.players.len(),
            forall|i: int| 0 <= i < ps@.len() ==> #[trigger] ps@[i] == self@.players[(i + 1) as usize],
    {
        proof {
            use_type_invariant(self);
        }
        self.game.players_sorted()
    }

    /// The question being voted on, where it exists.
    pub fn current_question(&self) -> (q: Option<Question>)
        ensures
            self@.current < self@.questions.len() ==> (q matches Some(c) && c@ == self@.questions[self@.current as int]),
            self@.current >= self@.questions.len() ==> q is None,
    {
        let g = &self.game;
        if g.current_question_index < g.questions.len() {
            Some(g.questions[g.current_question_index].clone())
        } else {
            None
        }
    }

    /// The questions handed to player `id`, as their index and prompt.
    pub fn my_questions(&self, id: usize) -> (mine: Vec<(usize, String)>)
        ensures
            mine@.map_values(|p: (usize, String)| (p.0, p.1@)) == assigned(self@.questions, id),
    {
        questions_for(&self.game.questions, id)
    }

    /// The phase of the game.
    pub fn phase(&self) -> (p: GamePhase)
        ensures
            p == self@.phase,
    {
        self.game.phase
    }

    /// The seconds left in the phase.
    pub fn timer(&self) -> (t: u32)
        ensures
            t == self@.timer,
    {
        self.game.timer
    }

    /// The round, from 1 to 3.
    pub fn round(&self) -> (r: u32)
        ensures
            r == self@.round,
    {
        self.game.round
    }

    /// The index of the question being voted on.
    pub fn current_question_index(&self) -> (i: usize)
        ensures
            i == self@.current,
    {
        self.game.current_question_index
    }

    /// The questions of the round.
    pub fn questions(&self) -> (qs: &Vec<Question>)
        ensures
            question_views(qs@) == self@.questions,
    {
        &self.game.questions
    }

    /// The scores of the game.
    pub fn scores(&self) -> (s: &HashMap<usize, i32>)
        ensures
            s@ == self@.scores,
    {
        &self.game.scores
    }

    /// The number of players.
    pub fn player_count(&self) -> (n: usize)
        ensures
            n == self@.players.len(),
    {
        proof {
            use_type_invariant(self);
        }
        self.game.players.len()
    }

    /// Whether a game can start: at least three players have joined.
    pub fn can_start(&self) -> (b: bool)
        ensures
            b == self@.can_start(),
            b == (self@.players.len() >= 3),
    {
        proof {
            use_type_invariant(self);
        }
        self.game.players.len() >= 3
    }
}

} // verus!
