//! The game as a state machine: each line that the player enters moves the
//! game to its next phase and says what to show next.
//!
//! The machine decides; whoever drives it shows what an action asks for, reads
//! the next line and hands it back.

use crate::align::AlignmentError;
use crate::choice::{judge_choice, reply_of, ChoiceReply};
use crate::corpus::{Question, Song};
use crate::sampler::{
    is_choice_list, multiple_choice_options, pick_random_guess, EmptyCorpusError,
    InsufficientDistractorsError, DISTRACTOR_COUNT,
};
use crate::scoring::{choice_dist, multiple_choice_dist, points_for, score, Verdict, PERFECT_BONUS};
use crate::text::{chars_of, lowercase_of};
use crate::truncate::{is_best, optimal_truncated_dist, TruncationResult};
use rand::rngs::StdRng;
use vstd::prelude::*;

verus! {

/// A guess may be this many characters shorter than the answer and still be
/// judged.
pub const SHORTFALL_ALLOWED: usize = 5;

/// What a line entered as a guess asks for.
#[derive(Clone, Copy, Debug, PartialEq, Eq, Structural)]
pub enum GuessKind {
    /// A question mark: the round turns into multiple choice.
    MultipleChoice,
    /// A slash: the round is given up and counts as answered wrongly.
    GiveUp,
    /// The guess is far shorter than the answer: the player is asked again.
    TooShort,
    /// A guess to be judged against the answer.
    Attempt,
}

/// Where the game stands.
#[derive(Clone, Copy, Debug, PartialEq, Eq, Structural)]
pub enum Phase {
    /// A line is shown; the next line entered is the guess.
    Guessing,
    /// The options are shown; the next line entered is the selection.
    Choosing,
    /// The round was won; the next line entered goes on or asks for the song.
    Won,
    /// The song is shown after a round won; the next line entered goes on.
    WonSongShown,
    /// The round was lost; the next line entered quits, restarts or asks for
    /// the song.
    Lost,
    /// The song is shown after a round lost; the next line entered quits or
    /// restarts.
    LostSongShown,
    /// The game has ended.
    Finished,
}

/// Why the game cannot go on.
#[derive(Clone, Copy, Debug, PartialEq, Eq, Structural)]
pub enum GameError {
    /// No song of the corpus has a line that is followed by another.
    EmptyCorpus,
    /// The corpus did not yield enough distractors.
    InsufficientDistractors,
    /// Guess and answer are too long to align.
    TooLong,
}

/// What to show after a step.
#[derive(Clone, Copy, Debug, PartialEq, Eq, Structural)]
pub enum Action {
    /// Show the score and the question's line, and read a guess.
    AskGuess,
    /// Say that the guess was far too short, and read another.
    AskGuessAgain,
    /// Show the options, and read a selection.
    AskChoice,
    /// Say that the selection was not valid, and read another.
    AskChoiceAgain,
    /// Say that the round was won with `points` points; where the guess was
    /// aligned, show it against the answer with its last `truncate_amt`
    /// characters ignored. Then read whether to show the song.
    ShowWin { points: u32, truncate_amt: Option<usize> },
    /// Say that the game is over; where the guess was aligned, show it against
    /// the answer. Then read whether to quit, restart or show the song.
    ShowLoss { truncate_amt: Option<usize> },
    /// Show the song of the question, and read a line.
    ShowSong,
    /// Leave the game.
    Quit,
    /// Report the error and leave the game.
    Fail(GameError),
}

/// A game in progress.
#[derive(Clone, Debug)]
pub struct Game {
    /// Points earned since the game started or was restarted.
    pub score: u32,
    /// Where the game stands.
    pub phase: Phase,
    /// The question of the current round.
    pub question: Question,
    /// The options of the current round, once it turned into multiple choice.
    pub options: Vec<String>,
}

/// What a line entered as a guess for `answer` asks for.
pub open spec fn guess_kind(guess: Seq<char>, answer: Seq<char>) -> GuessKind {
    if guess == seq!['?'] {
        GuessKind::MultipleChoice
    } else if guess == seq!['/'] {
        GuessKind::GiveUp
    } else if guess.len() + SHORTFALL_ALLOWED < answer.len() {
        GuessKind::TooShort
    } else {
        GuessKind::Attempt
    }
}

/// Whether a corpus has a song that a question can be asked about.
pub open spec fn has_question(corpus: Seq<Song>) -> bool {
    exists|s: int| 0 <= s < corpus.len() && (#[trigger] corpus[s]).is_eligible()
}

/// The game once a round is settled: points are added to the score and the round is
/// won, or the round is lost and the score stays.
pub open spec fn judged(
    before: Game,
    after: Game,
    action: Action,
    verdict: Option<nat>,
    truncate_amt: Option<usize>,
) -> bool {
    &&& after.question == before.question
    &&& after.options == before.options
    &&& match verdict {
        Some(points) => {
            &&& after.phase == Phase::Won
            &&& after.score == before.score + points
            &&& action == (Action::ShowWin { points: points as u32, truncate_amt })
        },
        None => {
            &&& after.phase == Phase::Lost
            &&& after.score == before.score
            &&& action == (Action::ShowLoss { truncate_amt })
        },
    }
}

/// The game after a new round was asked for: with a question about the
/// corpus it waits for the guess, the score kept or set back to zero; with no
/// song to ask about it ends.
pub open spec fn next_round(
    before: Game,
    after: Game,
    action: Action,
    corpus: Seq<Song>,
    restart: bool,
) -> bool {
    if has_question(corpus) {
        &&& action == Action::AskGuess
        &&& after.phase == Phase::Guessing
        &&& after.question.asks_about(corpus)
        &&& after.score == if restart {
            0
        } else {
            before.score
        }
    } else {
        &&& action == Action::Fail(GameError::EmptyCorpus)
        &&& after.phase == Phase::Finished
        &&& after.score == before.score
    }
}

/// The game after the line `line` was entered as a guess.
pub open spec fn guessed(
    before: Game,
    line: Seq<char>,
    after: Game,
    action: Action,
    corpus: Seq<Song>,
) -> bool {
    let answer = before.question.answer@;
    match guess_kind(line, answer) {
        GuessKind::MultipleChoice => {
            &&& after.question == before.question
            &&& after.score == before.score
            &&& {
                ||| {
                    &&& action == Action::AskChoice
                    &&& after.phase == Phase::Choosing
                    &&& is_choice_list(
                        after.options@,
                        before.question.answer,
                        corpus,
                        DISTRACTOR_COUNT as nat,
                    )
                }
                ||| {
                    &&& action == Action::Fail(GameError::InsufficientDistractors)
                    &&& after.phase == Phase::Finished
                }
            }
        },
        GuessKind::GiveUp => judged(before, after, action, None, None),
        GuessKind::TooShort => after == before && action == Action::AskGuessAgain,
        GuessKind::Attempt => {
            if lowercase_of(line).len() + lowercase_of(answer).len() <= usize::MAX {
                exists|best: TruncationResult|
                    #![trigger is_best(lowercase_of(line), lowercase_of(answer), best)]
                    is_best(lowercase_of(line), lowercase_of(answer), best) && judged(
                        before,
                        after,
                        action,
                        points_for(best.dist as nat),
                        Some(best.truncate_amt),
                    )
            } else {
                &&& action == Action::Fail(GameError::TooLong)
                &&& after.phase == Phase::Finished
                &&& after.score == before.score
            }
        },
    }
}

/// The game after the line `line` was entered as a selection.
pub open spec fn chosen(before: Game, line: Seq<char>, after: Game, action: Action) -> bool {
    match reply_of(line, before.options@, before.question.answer@) {
        ChoiceReply::Retry => after == before && action == Action::AskChoiceAgain,
        ChoiceReply::Answered(correct) => judged(
            before,
            after,
            action,
            points_for(choice_dist(correct)),
            None,
        ),
    }
}

/// The game after `line` was entered, whatever was drawn on the way.
pub open spec fn stepped(
    before: Game,
    line: Seq<char>,
    after: Game,
    action: Action,
    corpus: Seq<Song>,
) -> bool {
    match before.phase {
        Phase::Guessing => guessed(before, line, after, action, corpus),
        Phase::Choosing => chosen(before, line, after, action),
        Phase::Won => if line == seq!['?'] {
            after == (Game { phase: Phase::WonSongShown, ..before }) && action == Action::ShowSong
        } else {
            next_round(before, after, action, corpus, false)
        },
        Phase::WonSongShown => next_round(before, after, action, corpus, false),
        Phase::Lost => if line == seq!['?'] {
            after == (Game { phase: Phase::LostSongShown, ..before }) && action == Action::ShowSong
        } else if line == seq!['r'] {
            next_round(before, after, action, corpus, true)
        } else {
            after == (Game { phase: Phase::Finished, ..before }) && action == Action::Quit
        },
        Phase::LostSongShown => if line == seq!['r'] {
            next_round(before, after, action, corpus, true)
        } else {
            after == (Game { phase: Phase::Finished, ..before }) && action == Action::Quit
        },
        Phase::Finished => after == before && action == Action::Quit,
    }
}

/// Whether `line` is the one character `c`.
pub fn is_key(line: &str, c: char) -> (hit: bool)
    ensures
        hit == (line@ == seq![c]),
{
    let chars = chars_of(line);
    if chars.len() == 1 && chars[0] == c {
        assert(line@ =~= seq![c]);
        true
    } else {
        assert(line@ != seq![c]) by {
            if line@ == seq![c] {
                assert(seq![c][0] == c);
            }
        }
        false
    }
}

/// Says what a line entered as a guess for `answer` asks for.
pub fn classify_guess(guess: &str, answer: &str) -> (kind: GuessKind)
    ensures
        kind == guess_kind(guess@, answer@),
{
    if is_key(guess, '?') {
        return GuessKind::MultipleChoice;
    }
    if is_key(guess, '/') {
        return GuessKind::GiveUp;
    }
    let g = chars_of(guess);
    let a = chars_of(answer);
    if a.len() > SHORTFALL_ALLOWED && g.len() < a.len() - SHORTFALL_ALLOWED {
        GuessKind::TooShort
    } else {
        GuessKind::Attempt
    }
}

impl Game {
    /// Whether the score has room for the points of one more round.
    pub open spec fn has_room(&self) -> bool {
        self.score + PERFECT_BONUS <= u32::MAX
    }

    /// Starts a game with a first question.
    ///
    /// Fails exactly when no song has a line that is followed by another.
    pub fn start(corpus: &Vec<Song>, rng: &mut StdRng) -> (outcome: Result<Game, EmptyCorpusError>)
        ensures
            outcome is Ok <==> has_question(corpus@),
            outcome matches Ok(game) ==> game.score == 0 && game.phase == Phase::Guessing
                && game.question.asks_about(corpus@) && game.options@.len() == 0,
    {
        match pick_random_guess(corpus, rng) {
            Ok(question) => Ok(
                Game { score: 0, phase: Phase::Guessing, question, options: Vec::new() },
            ),
            Err(e) => Err(e),
        }
    }

    /// Settles the round at distance `dist`.
    fn settle(&mut self, dist: usize, truncate_amt: Option<usize>) -> (action: Action)
        requires
            old(self).has_room(),
        ensures
            judged(*old(self), *final(self), action, points_for(dist as nat), truncate_amt),
    {
        match score(dist) {
            Verdict::Points(points) => {
                self.score = self.score + points;
                self.phase = Phase::Won;
                Action::ShowWin { points, truncate_amt }
            },
            Verdict::Rejected => {
                self.phase = Phase::Lost;
                Action::ShowLoss { truncate_amt }
            },
        }
    }

    /// Draws the question of the next round.
    fn next_question(&mut self, corpus: &Vec<Song>, rng: &mut StdRng, restart: bool) -> (action:
        Action)
        ensures
            next_round(*old(self), *final(self), action, corpus@, restart),
    {
        match pick_random_guess(corpus, rng) {
            Ok(question) => {
                self.question = question;
                self.options = Vec::new();
                self.phase = Phase::Guessing;
                if restart {
                    self.score = 0;
                }
                Action::AskGuess
            },
            Err(_) => {
                self.phase = Phase::Finished;
                Action::Fail(GameError::EmptyCorpus)
            },
        }
    }

    /// Takes the line that the player entered and moves the game on.
    ///
    /// A guess is judged against the answer, or turns the round into multiple
    /// choice, or gives it up, or is asked again; a selection is judged or
    /// asked again; after a round the line decides between the song, the next
    /// round, a restart and the end.
    pub fn step(&mut self, line: &str, corpus: &Vec<Song>, rng: &mut StdRng) -> (action: Action)
        requires
            old(self).has_room(),
        ensures
            stepped(*old(self), line@, *final(self), action, corpus@),
    {
        match self.phase {
            Phase::Guessing => {
                match classify_guess(line, self.question.answer.as_str()) {
                    GuessKind::MultipleChoice => {
                        match multiple_choice_options(&self.question, corpus, DISTRACTOR_COUNT, rng) {
                            Ok(options) => {
                                self.options = options;
                                self.phase = Phase::Choosing;
                                Action::AskChoice
                            },
                            Err(_) => {
                                self.phase = Phase::Finished;
                                Action::Fail(GameError::InsufficientDistractors)
                            },
                        }
                    },
                    GuessKind::GiveUp => {
                        self.phase = Phase::Lost;
                        Action::ShowLoss { truncate_amt: None }
                    },
                    GuessKind::TooShort => Action::AskGuessAgain,
                    GuessKind::Attempt => {
                        match optimal_truncated_dist(line, self.question.answer.as_str()) {
                            Ok(best) => {
                                let action = self.settle(best.dist, Some(best.truncate_amt));
                                assert(is_best(
                                    lowercase_of(line@),
                                    lowercase_of(old(self).question.answer@),
                                    best,
                                ));
                                action
                            },
                            Err(AlignmentError::TooLong) => {
                                self.phase = Phase::Finished;
                                Action::Fail(GameError::TooLong)
                            },
                        }
                    },
                }
            },
            Phase::Choosing => {
                match judge_choice(line, &self.options, &self.question.answer) {
                    ChoiceReply::Retry => Action::AskChoiceAgain,
                    ChoiceReply::Answered(correct) => {
                        let dist = multiple_choice_dist(correct);
                        self.settle(dist, None)
                    },
                }
            },
            Phase::Won => {
                if is_key(line, '?') {
                    self.phase = Phase::WonSongShown;
                    Action::ShowSong
                } else {
                    self.next_question(corpus, rng, false)
                }
            },
            Phase::WonSongShown => self.next_question(corpus, rng, false),
            Phase::Lost => {
                if is_key(line, '?') {
                    self.phase = Phase::LostSongShown;
                    Action::ShowSong
                } else if is_key(line, 'r') {
                    self.next_question(corpus, rng, true)
                } else {
                    self.phase = Phase::Finished;
                    Action::Quit
                }
            },
            Phase::LostSongShown => {
                if is_key(line, 'r') {
                    self.next_question(corpus, rng, true)
                } else {
                    self.phase = Phase::Finished;
                    Action::Quit
                }
            },
            Phase::Finished => Action::Quit,
        }
    }
}

} // verus!
