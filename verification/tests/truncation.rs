use lyric_quiz::align::diff_greedy;
use lyric_quiz::scoring::{score, Verdict};
use lyric_quiz::truncate::{optimal_truncated_dist, optimal_truncation, TruncationResult};

fn chars(text: &str) -> Vec<char> {
    text.chars().collect()
}

#[test]
fn a_perfect_guess_earns_the_bonus() {
    let best = optimal_truncated_dist("deeper than the sea", "deeper than the sea").unwrap();
    assert_eq!(best, TruncationResult { truncate_amt: 0, dist: 0 });
    assert_eq!(score(best.dist), Verdict::Points(26));
}

#[test]
fn a_guess_one_character_short_still_scores() {
    let best = optimal_truncated_dist("deeper than the se", "deeper than the sea").unwrap();
    assert_eq!(best, TruncationResult { truncate_amt: 0, dist: 1 });
    assert_eq!(score(best.dist), Verdict::Points(13));
}

#[test]
fn stray_trailing_characters_are_truncated() {
    let best = optimal_truncated_dist("deeper than the sea!!", "deeper than the sea").unwrap();
    assert_eq!(best, TruncationResult { truncate_amt: 2, dist: 0 });
}

#[test]
fn case_is_ignored_by_the_optimizer() {
    let best = optimal_truncated_dist("Deeper Than The SEA", "deeper than the sea").unwrap();
    assert_eq!(best, TruncationResult { truncate_amt: 0, dist: 0 });
}

#[test]
fn the_optimum_costs_no_more_than_the_whole_guess() {
    let pairs = [
        ("shake it off shake it off", "shake it off"),
        ("i knew you were trouble", "i knew you were trouble when you walked in"),
        ("xyz", "deeper than the sea"),
        ("a", "b"),
    ];
    for (guess, answer) in pairs {
        let best = optimal_truncation(&chars(guess), &chars(answer)).unwrap();
        let whole = diff_greedy(guess, answer).unwrap();
        assert!(best.dist <= whole.cost);
        assert!(best.truncate_amt < guess.chars().count());
    }
}

#[test]
fn the_optimum_is_the_least_truncation_of_least_cost() {
    let guess = chars("shake it off shake it off");
    let answer = chars("shake it off");
    let best = optimal_truncation(&guess, &answer).unwrap();
    let mut least: Option<(usize, usize)> = None;
    for t in 0..guess.len() {
        let cost = lyric_quiz::align::align_chars(&guess[..guess.len() - t], &answer).unwrap().cost;
        if least.map_or(true, |(_, c)| cost < c) {
            least = Some((t, cost));
        }
    }
    assert_eq!(Some((best.truncate_amt, best.dist)), least);
    assert_eq!(best, TruncationResult { truncate_amt: 13, dist: 0 });
}

#[test]
fn a_guess_is_never_truncated_to_nothing() {
    let best = optimal_truncation(&chars("zzz"), &chars("")).unwrap();
    assert_eq!(best, TruncationResult { truncate_amt: 2, dist: 1 });
}

#[test]
fn an_empty_guess_is_tried_whole() {
    let best = optimal_truncation(&chars(""), &chars("abc")).unwrap();
    assert_eq!(best, TruncationResult { truncate_amt: 0, dist: 3 });
}
