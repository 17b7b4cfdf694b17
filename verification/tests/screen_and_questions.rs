use std::collections::HashMap;

use partystation::backend::backend_to_set;
use partystation::phase::GamePhase;
use partystation::questions::{
    build_questions, default_prompts, generate_questions, questions_for, Player, Question,
};
use partystation::screen::{rank_players, ready_player_names, result_lines};

fn player(id: usize, name: &str) -> Player {
    Player { id, name: name.to_string() }
}

#[test]
fn phase_labels_are_camel_case() {
    assert_eq!(GamePhase::Lobby.label(), "lobby");
    assert_eq!(GamePhase::Prompting.label(), "prompting");
    assert_eq!(GamePhase::Voting.label(), "voting");
    assert_eq!(GamePhase::Reveal.label(), "reveal");
    assert_eq!(GamePhase::Results.label(), "results");
}

#[test]
fn backend_is_chosen_only_when_unset() {
    assert_eq!(backend_to_set(true, true), None);
    assert_eq!(backend_to_set(true, false), None);
    assert_eq!(backend_to_set(false, true), Some("linuxkms-noseat"));
    assert_eq!(backend_to_set(false, false), Some("winit"));
}

#[test]
fn build_questions_pairs_players_in_a_ring() {
    let prompts = vec!["p0", "p1"];
    let qs = build_questions(&prompts, &[7, 8, 9]);
    assert_eq!(qs.len(), 3);
    assert_eq!(qs[0].player_ids, (7, 8));
    assert_eq!(qs[1].player_ids, (8, 9));
    assert_eq!(qs[2].player_ids, (9, 7));
    assert_eq!(qs[0].prompt, "p0");
    assert_eq!(qs[1].prompt, "p1");
    assert_eq!(qs[2].prompt, "p0");
    assert!(qs.iter().all(|q| q.answers.is_empty() && q.votes.is_empty()));
}

#[test]
fn build_questions_edge_cases() {
    let prompts = vec!["only"];
    assert!(build_questions(&prompts, &[]).is_empty());
    let one = build_questions(&prompts, &[4]);
    assert_eq!(one[0].player_ids, (4, 4));
}

#[test]
fn generated_questions_use_the_prompts_in_some_order() {
    let mut defaults: Vec<String> = default_prompts().iter().map(|s| s.to_string()).collect();
    defaults.sort();
    let qs = generate_questions(&[1, 2, 3, 4, 5], 1);
    let mut prompts: Vec<String> = qs.iter().map(|q| q.prompt.clone()).collect();
    prompts.sort();
    assert_eq!(prompts, defaults);
    let pairs: Vec<(usize, usize)> = qs.iter().map(|q| q.player_ids).collect();
    assert_eq!(pairs, vec![(1, 2), (2, 3), (3, 4), (4, 5), (5, 1)]);
}

#[test]
fn generated_prompts_repeat_after_five_players() {
    let qs = generate_questions(&[1, 2, 3, 4, 5, 6, 7], 2);
    assert_eq!(qs.len(), 7);
    assert_eq!(qs[5].prompt, qs[0].prompt);
    assert_eq!(qs[6].prompt, qs[1].prompt);
}

#[test]
fn generated_prompts_get_shuffled() {
    let defaults: Vec<String> = default_prompts().iter().map(|s| s.to_string()).collect();
    let mut seen_other_order = false;
    for _ in 0..60 {
        let qs = generate_questions(&[1, 2, 3, 4, 5], 1);
        let prompts: Vec<String> = qs.iter().map(|q| q.prompt.clone()).collect();
        if prompts != defaults {
            seen_other_order = true;
        }
    }
    assert!(seen_other_order);
}

#[test]
fn questions_for_lists_the_questions_of_a_player() {
    let qs = build_questions(&vec!["a", "b", "c"], &[1, 2, 3]);
    let mine = questions_for(&qs, 3);
    assert_eq!(mine, vec![(1, "b".to_string()), (2, "c".to_string())]);
}

fn answered(q: &mut Question, id: usize) {
    q.answers.insert(id, format!("by {}", id));
}

#[test]
fn ready_names_lists_players_done_with_their_questions() {
    let mut qs = build_questions(&vec!["a", "b", "c"], &[1, 2, 3]);
    answered(&mut qs[0], 1);
    answered(&mut qs[2], 1);
    answered(&mut qs[1], 2);
    answered(&mut qs[2], 3);
    let players = vec![player(1, "Ann"), player(2, "Bob"), player(3, "Cid"), player(4, "Dee")];
    // Bob misses question 0, Cid question 1; Dee has no questions.
    let names = ready_player_names(&players, &qs);
    assert_eq!(names, vec!["Ann".to_string(), "Dee".to_string()]);
}

#[test]
fn ranking_is_descending_and_stable() {
    let players = vec![player(1, "A"), player(2, "B"), player(3, "C"), player(4, "D")];
    let mut scores = HashMap::new();
    scores.insert(1, 100);
    scores.insert(2, 300);
    scores.insert(3, 100);
    let ranked: Vec<usize> = rank_players(&players, &scores).iter().map(|p| p.id).collect();
    assert_eq!(ranked, vec![2, 1, 3, 4]);
}

#[test]
fn result_lines_show_names_and_points() {
    let players = vec![player(1, "Ann"), player(2, "Bob"), player(3, "Cid")];
    let mut scores = HashMap::new();
    scores.insert(1, 1200);
    scores.insert(2, -7);
    let lines = result_lines(&players, &scores);
    assert_eq!(lines, vec!["Ann: 1200 pts", "Cid: 0 pts", "Bob: -7 pts"]);
}

#[test]
fn result_lines_extreme_scores() {
    let players = vec![player(1, "Min"), player(2, "Max")];
    let mut scores = HashMap::new();
    scores.insert(1, i32::MIN);
    scores.insert(2, i32::MAX);
    let lines = result_lines(&players, &scores);
    assert_eq!(lines, vec!["Max: 2147483647 pts", "Min: -2147483648 pts"]);
}

#[test]
fn result_lines_of_nobody() {
    let lines = result_lines(&Vec::new(), &HashMap::new());
    assert!(lines.is_empty());
}
