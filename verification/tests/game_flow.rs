use partystation::game::{ClientMessage, GameState, Reply};
use partystation::phase::GamePhase;

fn lobby_with(n: usize) -> GameState {
    let mut g = GameState::new();
    for i in 0..n {
        g.join(format!("player{}", i + 1));
    }
    g
}

fn answer_everything(g: &mut GameState) -> Reply {
    let mut last = Reply::Nothing;
    let qs: Vec<(usize, usize)> = g.questions().iter().map(|q| q.player_ids).collect();
    for (i, (a, b)) in qs.into_iter().enumerate() {
        last = g.submit_answer(Some(a), i, format!("answer of {} to {}", a, i));
        last = if g.phase() == GamePhase::Prompting {
            g.submit_answer(Some(b), i, format!("answer of {} to {}", b, i))
        } else {
            last
        };
    }
    last
}

fn run_ticks(g: &mut GameState, n: u32) -> Reply {
    let mut last = Reply::Nothing;
    for _ in 0..n {
        last = g.tick();
    }
    last
}

#[test]
fn new_server_is_an_empty_lobby() {
    let g = GameState::new();
    assert_eq!(g.phase(), GamePhase::Lobby);
    assert_eq!(g.player_count(), 0);
    assert_eq!(g.round(), 1);
    assert_eq!(g.timer(), 0);
    assert!(g.questions().is_empty());
    assert!(g.scores().is_empty());
    assert!(!g.can_start());
    assert!(g.current_question().is_none());
}

#[test]
fn join_gives_numbers_from_one_up() {
    let mut g = GameState::new();
    assert_eq!(g.join("Ann".to_string()), 1);
    assert_eq!(g.join("Bob".to_string()), 2);
    assert_eq!(g.join("Cid".to_string()), 3);
    let ps = g.players_sorted();
    let ids: Vec<usize> = ps.iter().map(|p| p.id).collect();
    let names: Vec<String> = ps.iter().map(|p| p.name.clone()).collect();
    assert_eq!(ids, vec![1, 2, 3]);
    assert_eq!(names, vec!["Ann", "Bob", "Cid"]);
    assert!(g.can_start());
}

#[test]
fn join_message_answers_with_welcome() {
    let mut g = GameState::new();
    let r = g.handle(None, ClientMessage::Join { name: "Ann".to_string() });
    assert_eq!(r, Reply::Welcome { id: 1 });
    assert_eq!(g.player_count(), 1);
}

#[test]
fn start_needs_three_players() {
    let mut g = lobby_with(2);
    assert_eq!(g.start_game(Some(1)), Reply::Nothing);
    assert_eq!(g.phase(), GamePhase::Lobby);
    assert!(g.questions().is_empty());
    assert!(g.scores().is_empty());
    assert_eq!(g.handle(Some(1), ClientMessage::StartGame), Reply::Nothing);
}

#[test]
fn start_sets_up_the_first_round() {
    let mut g = lobby_with(3);
    let r = g.start_game(Some(1));
    assert_eq!(r, Reply::Game { with_current_question: false, current_question_index: 0 });
    assert_eq!(g.phase(), GamePhase::Prompting);
    assert_eq!(g.timer(), 60);
    assert_eq!(g.round(), 1);
    let pairs: Vec<(usize, usize)> = g.questions().iter().map(|q| q.player_ids).collect();
    assert_eq!(pairs, vec![(1, 2), (2, 3), (3, 1)]);
    for id in 1..=3 {
        assert_eq!(g.scores().get(&id), Some(&0));
    }
    assert_eq!(g.scores().len(), 3);
    for q in g.questions() {
        assert!(q.answers.is_empty());
        assert!(q.votes.is_empty());
    }
}

#[test]
fn every_player_answers_two_questions() {
    let mut g = lobby_with(5);
    g.start_game(Some(1));
    for id in 1..=5usize {
        let mine: Vec<usize> = g.my_questions(id).into_iter().map(|(i, _)| i).collect();
        let before = if id == 1 { 4 } else { id - 2 };
        let mut expected = vec![id - 1, before];
        expected.sort();
        assert_eq!(mine, expected);
    }
    let prompts: Vec<String> = g.questions().iter().map(|q| q.prompt.clone()).collect();
    let mut distinct = prompts.clone();
    distinct.sort();
    distinct.dedup();
    assert_eq!(distinct.len(), 5);
}

#[test]
fn my_questions_lists_index_and_prompt() {
    let mut g = lobby_with(3);
    g.start_game(Some(1));
    let mine = g.my_questions(2);
    assert_eq!(mine.len(), 2);
    assert_eq!(mine[0].0, 0);
    assert_eq!(mine[0].1, g.questions()[0].prompt);
    assert_eq!(mine[1].0, 1);
    assert_eq!(mine[1].1, g.questions()[1].prompt);
    assert!(g.my_questions(99).is_empty());
}

#[test]
fn new_player_mid_game_has_no_questions() {
    let mut g = lobby_with(3);
    g.start_game(Some(1));
    let id = g.join("Late".to_string());
    assert_eq!(id, 4);
    assert!(g.my_questions(id).is_empty());
    assert_eq!(g.phase(), GamePhase::Prompting);
}

#[test]
fn answers_outside_prompting_are_ignored() {
    let mut g = lobby_with(3);
    assert_eq!(g.submit_answer(Some(1), 0, "x".to_string()), Reply::Nothing);
    assert!(g.questions().is_empty());
}

#[test]
fn answer_is_recorded_while_prompting() {
    let mut g = lobby_with(3);
    g.start_game(Some(1));
    let r = g.submit_answer(Some(1), 0, "a nap".to_string());
    assert_eq!(r, Reply::Game { with_current_question: false, current_question_index: 0 });
    assert_eq!(g.questions()[0].answers.get(&1), Some(&"a nap".to_string()));
    let r = g.submit_answer(None, 1, "nobody".to_string());
    assert_eq!(r, Reply::Game { with_current_question: false, current_question_index: 0 });
    assert!(g.questions()[1].answers.is_empty());
    assert!(g.scores().values().all(|s| *s == 0));
    assert_eq!(g.player_count(), 3);
    let r = g.submit_answer(Some(2), 17, "nowhere".to_string());
    assert_eq!(r, Reply::Game { with_current_question: false, current_question_index: 0 });
    assert_eq!(g.phase(), GamePhase::Prompting);
}

#[test]
fn all_answers_start_voting() {
    let mut g = lobby_with(3);
    g.start_game(Some(1));
    let r = answer_everything(&mut g);
    assert_eq!(r, Reply::Game { with_current_question: true, current_question_index: 0 });
    assert_eq!(g.phase(), GamePhase::Voting);
    assert_eq!(g.timer(), 10);
    assert_eq!(g.current_question_index(), 0);
    assert_eq!(g.current_question().unwrap().player_ids, (1, 2));
}

#[test]
fn vote_reveals_and_scores() {
    let mut g = lobby_with(3);
    g.start_game(Some(1));
    answer_everything(&mut g);
    // Player 1 answered question 0: its vote does not count.
    let r = g.submit_vote(Some(1), 0, 2);
    assert_eq!(r, Reply::Game { with_current_question: true, current_question_index: 0 });
    assert!(g.questions()[0].votes.is_empty());
    assert_eq!(g.phase(), GamePhase::Voting);
    // Player 3 is the only voter of question 0 (3 players - 2 authors).
    let r = g.submit_vote(Some(3), 0, 2);
    assert_eq!(r, Reply::Game { with_current_question: true, current_question_index: 0 });
    assert_eq!(g.phase(), GamePhase::Reveal);
    assert_eq!(g.timer(), 5);
    assert_eq!(g.scores().get(&2), Some(&100));
    assert_eq!(g.scores().get(&1), Some(&0));
    assert_eq!(g.scores().get(&3), Some(&0));
}

#[test]
fn vote_on_another_question_is_ignored() {
    let mut g = lobby_with(3);
    g.start_game(Some(1));
    answer_everything(&mut g);
    assert_eq!(g.submit_vote(Some(1), 1, 2), Reply::Nothing);
    assert!(g.questions()[1].votes.is_empty());
    assert_eq!(g.phase(), GamePhase::Voting);
}

#[test]
fn votes_wait_for_every_voter_and_count_each() {
    let mut g = lobby_with(5);
    g.start_game(Some(1));
    answer_everything(&mut g);
    // Question 0 went to players 1 and 2; players 3, 4 and 5 vote.
    g.submit_vote(Some(3), 0, 1);
    g.submit_vote(Some(4), 0, 2);
    assert_eq!(g.phase(), GamePhase::Voting);
    // A second vote replaces the first.
    g.submit_vote(Some(4), 0, 1);
    assert_eq!(g.questions()[0].votes.len(), 2);
    g.submit_vote(Some(5), 0, 1);
    assert_eq!(g.phase(), GamePhase::Reveal);
    assert_eq!(g.scores().get(&1), Some(&300));
    assert_eq!(g.scores().get(&2), Some(&0));
}

#[test]
fn vote_for_someone_without_a_score_creates_one() {
    let mut g = lobby_with(3);
    g.start_game(Some(1));
    answer_everything(&mut g);
    g.submit_vote(Some(3), 0, 42);
    assert_eq!(g.scores().get(&42), Some(&100));
    assert_eq!(g.scores().len(), 4);
}

#[test]
fn ticks_count_down_outside_the_lobby_only() {
    let mut g = lobby_with(3);
    assert_eq!(g.tick(), Reply::Nothing);
    g.start_game(Some(1));
    assert_eq!(g.tick(), Reply::TimerTick { timer: 59 });
    assert_eq!(g.timer(), 59);
    assert_eq!(g.phase(), GamePhase::Prompting);
}

#[test]
fn prompting_times_out_into_voting() {
    let mut g = lobby_with(3);
    g.start_game(Some(1));
    let r = run_ticks(&mut g, 60);
    assert_eq!(r, Reply::Game { with_current_question: true, current_question_index: 0 });
    assert_eq!(g.phase(), GamePhase::Voting);
    assert_eq!(g.timer(), 10);
}

#[test]
fn voting_times_out_into_reveal_without_points() {
    let mut g = lobby_with(3);
    g.start_game(Some(1));
    answer_everything(&mut g);
    let r = run_ticks(&mut g, 10);
    assert_eq!(r, Reply::Game { with_current_question: true, current_question_index: 0 });
    assert_eq!(g.phase(), GamePhase::Reveal);
    assert_eq!(g.timer(), 5);
    assert!(g.scores().values().all(|s| *s == 0));
}

#[test]
fn reveal_moves_to_the_next_question() {
    let mut g = lobby_with(3);
    g.start_game(Some(1));
    answer_everything(&mut g);
    run_ticks(&mut g, 10);
    let r = run_ticks(&mut g, 5);
    assert_eq!(r, Reply::Game { with_current_question: true, current_question_index: 1 });
    assert_eq!(g.phase(), GamePhase::Voting);
    assert_eq!(g.current_question_index(), 1);
    assert_eq!(g.timer(), 10);
}

#[test]
fn three_rounds_then_results() {
    let mut g = lobby_with(3);
    g.start_game(Some(1));
    for round in 1..=3u32 {
        assert_eq!(g.round(), round);
        assert_eq!(g.phase(), GamePhase::Prompting);
        assert_eq!(g.questions().len(), 3);
        run_ticks(&mut g, 60);
        for q in 0..3usize {
            assert_eq!(g.phase(), GamePhase::Voting);
            assert_eq!(g.current_question_index(), q);
            run_ticks(&mut g, 10);
            assert_eq!(g.phase(), GamePhase::Reveal);
            let r = run_ticks(&mut g, 5);
            if q == 2 && round == 3 {
                assert_eq!(r, Reply::Game { with_current_question: true, current_question_index: 3 });
            } else if q == 2 {
                assert_eq!(r, Reply::Game { with_current_question: true, current_question_index: 0 });
                assert_eq!(g.timer(), 60);
            }
        }
    }
    assert_eq!(g.phase(), GamePhase::Results);
    assert_eq!(g.round(), 3);
    assert_eq!(g.timer(), 0);
    assert!(g.current_question().is_none());
    assert_eq!(g.tick(), Reply::Nothing);
}

#[test]
fn second_round_votes_are_worth_more() {
    let mut g = lobby_with(3);
    g.start_game(Some(1));
    run_ticks(&mut g, 60 + 3 * 15);
    assert_eq!(g.round(), 2);
    answer_everything(&mut g);
    assert_eq!(g.phase(), GamePhase::Voting);
    let voter = 6 - g.questions()[0].player_ids.0 - g.questions()[0].player_ids.1;
    g.submit_vote(Some(voter), 0, 3);
    assert_eq!(g.scores().get(&3), Some(&200));
}

#[test]
fn reset_keeps_players_and_drops_the_game() {
    let mut g = lobby_with(3);
    g.start_game(Some(1));
    answer_everything(&mut g);
    g.submit_vote(Some(3), 0, 2);
    let r = g.handle(Some(1), ClientMessage::ResetToLobby);
    assert_eq!(r, Reply::Lobby);
    assert_eq!(g.phase(), GamePhase::Lobby);
    assert!(g.scores().is_empty());
    assert!(g.questions().is_empty());
    assert_eq!(g.current_question_index(), 0);
    assert_eq!(g.round(), 1);
    assert_eq!(g.player_count(), 3);
    assert!(g.can_start());
}

#[test]
fn starting_again_restarts_the_scores() {
    let mut g = lobby_with(3);
    g.start_game(Some(1));
    answer_everything(&mut g);
    g.submit_vote(Some(3), 0, 2);
    assert_eq!(g.scores().get(&2), Some(&100));
    g.start_game(Some(1));
    assert_eq!(g.scores().get(&2), Some(&0));
    assert_eq!(g.phase(), GamePhase::Prompting);
    assert_eq!(g.round(), 1);
}

#[test]
fn handle_dispatches_answers_and_votes() {
    let mut g = lobby_with(3);
    g.handle(Some(1), ClientMessage::StartGame);
    let r = g.handle(Some(1), ClientMessage::SubmitAnswer { question_index: 0, answer: "x".to_string() });
    assert_eq!(r, Reply::Game { with_current_question: false, current_question_index: 0 });
    let r = g.handle(Some(3), ClientMessage::SubmitVote { question_index: 0, target_id: 1 });
    assert_eq!(r, Reply::Nothing);
}

#[test]
fn only_the_host_starts_the_game() {
    let mut g = lobby_with(4);
    assert_eq!(g.start_game(Some(2)), Reply::Nothing);
    assert_eq!(g.start_game(None), Reply::Nothing);
    assert_eq!(g.handle(Some(4), ClientMessage::StartGame), Reply::Nothing);
    assert_eq!(g.handle(None, ClientMessage::StartGame), Reply::Nothing);
    assert_eq!(g.phase(), GamePhase::Lobby);
    assert!(g.questions().is_empty());
    assert!(g.scores().is_empty());
    let r = g.handle(Some(1), ClientMessage::StartGame);
    assert_eq!(r, Reply::Game { with_current_question: false, current_question_index: 0 });
    assert_eq!(g.phase(), GamePhase::Prompting);
}

#[test]
fn host_alone_cannot_start() {
    let mut g = lobby_with(2);
    assert_eq!(g.handle(Some(1), ClientMessage::StartGame), Reply::Nothing);
    assert_eq!(g.phase(), GamePhase::Lobby);
}

#[test]
fn messages_from_unknown_numbers_are_refused() {
    let g = lobby_with(3);
    assert!(!g.accepts(Some(9), &ClientMessage::StartGame));
    assert!(!g.accepts(Some(0), &ClientMessage::ResetToLobby));
    assert!(g.accepts(None, &ClientMessage::Join { name: "Eve".to_string() }));
    assert!(g.accepts(Some(3), &ClientMessage::StartGame));
    assert!(g.vote_fits(Some(3), 0, 1));
}

#[test]
fn players_are_never_lost() {
    let mut g = lobby_with(3);
    g.start_game(Some(1));
    answer_everything(&mut g);
    g.submit_vote(Some(3), 0, 2);
    run_ticks(&mut g, 200);
    g.reset_to_lobby();
    let names: Vec<String> = g.players_sorted().into_iter().map(|p| p.name).collect();
    assert_eq!(names, vec!["player1", "player2", "player3"]);
    assert_eq!(g.join("player4".to_string()), 4);
}
