use lyric_quiz::corpus::{all_line_refs, eligible_songs, question_at, LineRef, Song};
use lyric_quiz::sampler::{
    multiple_choice_options, offer, pick_distractors, pick_random_guess, retry_limit,
    EmptyCorpusError, InsufficientDistractorsError, DISTRACTOR_COUNT, RETRY_FACTOR,
};
use lyric_quiz::text::eq_ignoring_case;
use rand::rngs::StdRng;
use rand::SeedableRng;

fn song(name: &str, lines: &[&str]) -> Song {
    Song {
        album: "Album".to_string(),
        name: name.to_string(),
        lyrics_raw: lines.join("\n"),
        lines: lines.iter().map(|l| l.to_string()).collect(),
    }
}

fn numbered(name: &str, count: usize) -> Song {
    let lines: Vec<String> = (0..count).map(|k| format!("{} line {}", name, k)).collect();
    let borrowed: Vec<&str> = lines.iter().map(|l| l.as_str()).collect();
    song(name, &borrowed)
}

#[test]
fn two_songs_of_one_line_each_give_no_question() {
    let corpus = vec![song("first", &["only line"]), song("second", &["lonely line"])];
    let mut rng = StdRng::seed_from_u64(1);
    assert_eq!(pick_random_guess(&corpus, &mut rng).err(), Some(EmptyCorpusError));
}

#[test]
fn an_empty_corpus_gives_no_question() {
    let corpus: Vec<Song> = Vec::new();
    let mut rng = StdRng::seed_from_u64(1);
    assert_eq!(pick_random_guess(&corpus, &mut rng).err(), Some(EmptyCorpusError));
}

#[test]
fn a_question_asks_for_the_line_that_follows() {
    let corpus = vec![
        song("short", &["alone"]),
        song("long", &["one", "two", "three", "four"]),
        song("empty", &[]),
        song("pair", &["left", "right"]),
    ];
    let mut rng = StdRng::seed_from_u64(11);
    let mut seen_songs = [false; 4];
    for _ in 0..200 {
        let q = pick_random_guess(&corpus, &mut rng).expect("two songs qualify");
        let lines = &corpus[q.song].lines;
        assert!(lines.len() >= 2);
        assert!(q.line + 1 < lines.len());
        assert_eq!(q.shown_line, lines[q.line]);
        assert_eq!(q.answer, lines[q.line + 1]);
        seen_songs[q.song] = true;
    }
    assert_eq!(seen_songs, [false, true, false, true]);
}

#[test]
fn the_question_at_a_position_is_exact() {
    let corpus = vec![song("long", &["one", "two", "three"])];
    let q = question_at(&corpus, 0, 1).expect("line 1 is followed by line 2");
    assert_eq!(q.shown_line, "two");
    assert_eq!(q.answer, "three");
    assert_eq!((q.song, q.line), (0, 1));
    assert!(question_at(&corpus, 0, 2).is_none());
    assert!(question_at(&corpus, 1, 0).is_none());
    assert!(question_at(&corpus, 0, usize::MAX).is_none());
}

#[test]
fn eligible_songs_are_those_with_two_lines() {
    let corpus = vec![
        song("a", &["x"]),
        song("b", &["x", "y"]),
        song("c", &[]),
        song("d", &["x", "y", "z"]),
    ];
    assert_eq!(eligible_songs(&corpus), vec![1, 3]);
    assert_eq!(eligible_songs(&Vec::new()), Vec::<usize>::new());
}

#[test]
fn line_positions_are_listed_song_after_song() {
    let corpus = vec![song("a", &["x", "y"]), song("b", &[]), song("c", &["z"])];
    assert_eq!(
        all_line_refs(&corpus),
        vec![
            LineRef { song: 0, line: 0 },
            LineRef { song: 0, line: 1 },
            LineRef { song: 2, line: 0 },
        ]
    );
}

#[test]
fn sixteen_distractors_come_from_a_large_corpus() {
    let corpus = vec![numbered("first", 12), numbered("second", 12)];
    let answer = corpus[0].lines[3].clone();
    for seed in 0..20 {
        let mut rng = StdRng::seed_from_u64(seed);
        let chosen = pick_distractors(&answer, &corpus, DISTRACTOR_COUNT, &mut rng)
            .expect("23 other lines are enough");
        assert_eq!(chosen.len(), 16);
        for (k, line) in chosen.iter().enumerate() {
            assert!(!eq_ignoring_case(line, &answer));
            assert!(corpus.iter().any(|s| s.lines.contains(line)));
            for other in &chosen[..k] {
                assert!(!eq_ignoring_case(line, other));
            }
        }
    }
}

#[test]
fn distractors_differ_from_the_answer_whatever_the_case() {
    let corpus = vec![song("a", &["Hello", "HELLO", "hello", "World", "world"])];
    let mut rng = StdRng::seed_from_u64(3);
    let chosen = pick_distractors("hElLo", &corpus, 1, &mut rng).expect("world is left");
    assert_eq!(chosen.len(), 1);
    assert!(eq_ignoring_case(&chosen[0], "world"));
}

#[test]
fn a_small_corpus_gives_too_few_distractors() {
    let corpus = vec![song("a", &["one", "two", "three"])];
    let mut rng = StdRng::seed_from_u64(5);
    assert_eq!(
        pick_distractors("one", &corpus, DISTRACTOR_COUNT, &mut rng),
        Err(InsufficientDistractorsError)
    );
}

#[test]
fn a_corpus_without_lines_gives_no_distractor() {
    let mut rng = StdRng::seed_from_u64(5);
    assert_eq!(pick_distractors("one", &Vec::new(), 1, &mut rng), Err(InsufficientDistractorsError));
    let corpus = vec![song("a", &[])];
    assert_eq!(pick_distractors("one", &corpus, 1, &mut rng), Err(InsufficientDistractorsError));
}

#[test]
fn no_distractors_are_always_to_be_had() {
    let mut rng = StdRng::seed_from_u64(5);
    assert_eq!(pick_distractors("one", &Vec::new(), 0, &mut rng), Ok(Vec::new()));
}

#[test]
fn an_offered_line_is_taken_if_it_is_fresh() {
    let mut chosen: Vec<String> = Vec::new();
    assert!(offer(&mut chosen, "Blank Space", "style", 2));
    assert!(!offer(&mut chosen, "blank space", "style", 2));
    assert!(!offer(&mut chosen, "STYLE", "style", 2));
    assert!(offer(&mut chosen, "Clean", "style", 2));
    assert!(!offer(&mut chosen, "Wildest Dreams", "style", 2));
    assert_eq!(chosen, vec!["Blank Space".to_string(), "Clean".to_string()]);
}

#[test]
fn the_retry_limit_is_fifty_draws_for_each_distractor() {
    assert_eq!(RETRY_FACTOR, 50);
    assert_eq!(retry_limit(0), 0);
    assert_eq!(retry_limit(1), 50);
    assert_eq!(retry_limit(16), 800);
    assert_eq!(retry_limit(usize::MAX / 50), (usize::MAX / 50) * 50);
    assert_eq!(retry_limit(usize::MAX / 50 + 1), usize::MAX);
    assert_eq!(retry_limit(usize::MAX), usize::MAX);
}

#[test]
fn the_options_are_the_answer_and_its_distractors() {
    let corpus = vec![numbered("first", 30)];
    let question = question_at(&corpus, 0, 4).unwrap();
    let mut orders = std::collections::BTreeSet::new();
    for seed in 0..10 {
        let mut rng = StdRng::seed_from_u64(seed);
        let options = multiple_choice_options(&question, &corpus, DISTRACTOR_COUNT, &mut rng)
            .expect("29 other lines are enough");
        assert_eq!(options.len(), 17);
        assert_eq!(options.iter().filter(|o| **o == question.answer).count(), 1);
        let mut sorted = options.clone();
        sorted.sort();
        sorted.dedup();
        assert_eq!(sorted.len(), 17);
        for option in &options {
            assert!(corpus[0].lines.contains(option));
        }
        orders.insert(options.iter().position(|o| *o == question.answer).unwrap());
    }
    assert!(orders.len() > 1);
}

#[test]
fn options_fail_where_distractors_fail() {
    let corpus = vec![song("a", &["one", "two", "three"])];
    let question = question_at(&corpus, 0, 0).unwrap();
    let mut rng = StdRng::seed_from_u64(9);
    assert_eq!(
        multiple_choice_options(&question, &corpus, DISTRACTOR_COUNT, &mut rng),
        Err(InsufficientDistractorsError)
    );
}

#[test]
fn as_many_lines_are_taken_as_there_are_forms_or_asked_for() {
    let offered = ["Red", "red", "Style", "RED", "clean", "style", "Answer", "Clean"];
    for (count, expected) in [(0usize, 0usize), (1, 1), (2, 2), (3, 3), (4, 3), (16, 3)] {
        let mut chosen: Vec<String> = Vec::new();
        for line in offered {
            offer(&mut chosen, line, "answer", count);
        }
        assert_eq!(chosen.len(), expected);
    }
    let mut chosen: Vec<String> = Vec::new();
    for line in offered {
        offer(&mut chosen, line, "answer", 16);
    }
    assert_eq!(chosen, vec!["Red".to_string(), "Style".to_string(), "clean".to_string()]);
}
