//! The corpus sampler: a random question, and random distractor lines for
//! multiple choice.
//!
//! The random generator is a parameter. What it hands out is not predicted:
//! each function states what holds whichever numbers are drawn, and the steps
//! that work on a drawn value are functions of their own.

use crate::corpus::{
    all_line_refs, eligible_songs, is_line_of, is_line_ref, line_text, lists_eligible, question_at,
    texts, LineRef, Question, Song,
};
use crate::text::{eq_ignoring_case, lowercase_of, same_folded};
use rand::rngs::StdRng;
use rand::seq::SliceRandom;
use rand::Rng;
use vstd::prelude::*;

verus! {

/// Number of distractors offered beside the answer.
pub const DISTRACTOR_COUNT: usize = 16;

/// Draws allowed for each distractor asked for.
pub const RETRY_FACTOR: usize = 50;

/// No song of the corpus has a line that is followed by another.
#[derive(Clone, Copy, Debug, PartialEq, Eq, Structural)]
pub struct EmptyCorpusError;

/// The draws allowed did not yield as many distractors as asked for.
#[derive(Clone, Copy, Debug, PartialEq, Eq, Structural)]
pub struct InsufficientDistractorsError;

#[verifier::external_type_specification]
#[verifier::external_body]
pub struct ExStdRng(StdRng);

/// Calls `Rng::gen_range` on the range from zero up to and without `bound`.
/// The number drawn lies in that range; nothing else is known of it. An empty
/// range makes the call panic, so `bound` is positive.
#[verifier::external_body]
pub(crate) fn draw_below(rng: &mut StdRng, bound: usize) -> (drawn: usize)
    requires
        bound > 0,
    ensures
        drawn < bound,
{
    rng.gen_range(0..bound)
}

/// Calls `SliceRandom::shuffle`, which swaps elements in place: afterwards
/// the list holds the same lines as before, each as often, in some order.
#[verifier::external_body]
pub(crate) fn shuffle_lines(lines: &mut Vec<String>, rng: &mut StdRng)
    ensures
        final(lines)@.to_multiset() == old(lines)@.to_multiset(),
{
    lines.shuffle(rng);
}

/// Picks a song with at least two lines, then a line of it that is not the
/// last, and asks for the line after it.
///
/// Fails exactly when no song has two lines. Which question comes back is up
/// to the generator; whichever it is, it is a question about the corpus.
pub fn pick_random_guess(corpus: &Vec<Song>, rng: &mut StdRng) -> (outcome: Result<
    Question,
    EmptyCorpusError,
>)
    ensures
        outcome is Err <==> forall|s: int|
            0 <= s < corpus@.len() ==> !(#[trigger] corpus@[s]).is_eligible(),
        outcome matches Ok(q) ==> q.asks_about(corpus@),
{
    let songs = eligible_songs(corpus);
    if songs.len() == 0 {
        assert forall|s: int| 0 <= s < corpus@.len() implies !(#[trigger] corpus@[s]).is_eligible() by {
            if corpus@[s].is_eligible() {
                assert(songs@.contains(s as usize));
            }
        }
        return Err(EmptyCorpusError);
    }
    let pick = draw_below(rng, songs.len());
    let song: usize = songs[pick];
    assert(corpus@[song as int].is_eligible());
    let line = draw_below(rng, corpus[song].lines.len() - 1);
    match question_at(corpus, song, line) {
        Some(q) => Ok(q),
        None => Err(EmptyCorpusError),
    }
}

/// Whether `line` may join the distractors `chosen` for `answer`: folded to
/// lower case it differs from the answer and from each of them.
pub open spec fn is_fresh(line: Seq<char>, answer: Seq<char>, chosen: Seq<Seq<char>>) -> bool {
    &&& !same_folded(line, answer)
    &&& forall|k: int| 0 <= k < chosen.len() ==> !same_folded(line, #[trigger] chosen[k])
}

/// The distractors after `line` was offered: it joins `chosen` where fewer
/// than `count` are chosen and it is fresh.
pub open spec fn offer_step(
    answer: Seq<char>,
    chosen: Seq<Seq<char>>,
    line: Seq<char>,
    count: nat,
) -> Seq<Seq<char>> {
    if chosen.len() < count && is_fresh(line, answer, chosen) {
        chosen.push(line)
    } else {
        chosen
    }
}

/// The distractors chosen once the lines `offered` were offered in turn.
pub open spec fn collect(answer: Seq<char>, offered: Seq<Seq<char>>, count: nat) -> Seq<Seq<char>>
    decreases offered.len(),
{
    if offered.len() == 0 {
        Seq::empty()
    } else {
        offer_step(answer, collect(answer, offered.drop_last(), count), offered.last(), count)
    }
}

/// Whether `chosen` are `count` lines of `corpus` of which, folded to lower
/// case, none is the answer and no two are the same.
pub open spec fn is_distractor_set(
    chosen: Seq<Seq<char>>,
    answer: Seq<char>,
    corpus: Seq<Song>,
    count: nat,
) -> bool {
    &&& chosen.len() == count
    &&& forall|k: int| 0 <= k < chosen.len() ==> !same_folded(#[trigger] chosen[k], answer)
    &&& forall|a: int, b: int|
        0 <= a < b < chosen.len() ==> !same_folded(#[trigger] chosen[a], #[trigger] chosen[b])
    &&& forall|k: int| 0 <= k < chosen.len() ==> is_line_of(corpus, #[trigger] chosen[k])
}

/// The number of draws after which sampling gives up.
pub open spec fn retry_cap(count: nat) -> nat {
    if count * RETRY_FACTOR <= usize::MAX {
        (count * RETRY_FACTOR) as nat
    } else {
        usize::MAX as nat
    }
}

/// Whether `outcome` is what sampling returns when the draws offer the lines
/// `offered`: sampling stops with the distractors as soon as there are
/// `count`, and gives up once the allowed draws are spent, or at once where
/// the corpus has no line to draw.
pub open spec fn sampled(
    answer: Seq<char>,
    corpus: Seq<Song>,
    count: nat,
    offered: Seq<Seq<char>>,
    outcome: Result<Vec<String>, InsufficientDistractorsError>,
) -> bool {
    &&& offered.len() <= retry_cap(count)
    &&& forall|k: int| 0 <= k < offered.len() ==> is_line_of(corpus, #[trigger] offered[k])
    &&& match outcome {
        Ok(chosen) => texts(chosen@) == collect(answer, offered, count) && chosen@.len() == count,
        Err(_) => collect(answer, offered, count).len() < count && (offered.len() == retry_cap(
            count,
        ) || forall|at: LineRef| !is_line_ref(corpus, at)),
    }
}

/// Whatever lines are offered, at most `count` are chosen, each is one of
/// those offered, none is the answer and no two are the same, case aside.
pub proof fn lemma_collect_distinct(answer: Seq<char>, offered: Seq<Seq<char>>, count: nat)
    ensures
        collect(answer, offered, count).len() <= count,
        collect(answer, offered, count).len() <= offered.len(),
        forall|k: int|
            0 <= k < collect(answer, offered, count).len() ==> !same_folded(
                #[trigger] collect(answer, offered, count)[k],
                answer,
            ),
        forall|a: int, b: int|
            0 <= a < b < collect(answer, offered, count).len() ==> !same_folded(
                #[trigger] collect(answer, offered, count)[a],
                #[trigger] collect(answer, offered, count)[b],
            ),
        forall|k: int|
            0 <= k < collect(answer, offered, count).len() ==> offered.contains(
                #[trigger] collect(answer, offered, count)[k],
            ),
    decreases offered.len(),
{
    if offered.len() > 0 {
        let shorter = offered.drop_last();
        lemma_collect_distinct(answer, shorter, count);
        let before = collect(answer, shorter, count);
        let after = collect(answer, offered, count);
        assert forall|k: int| 0 <= k < after.len() implies offered.contains(#[trigger] after[k]) by {
            if k < before.len() {
                assert(shorter.contains(before[k]));
                let w = choose|w: int| 0 <= w < shorter.len() && shorter[w] == before[k];
                assert(offered[w] == before[k]);
            } else {
                assert(offered[offered.len() - 1] == after[k]);
            }
        }
    }
}

/// The lower-case forms of the lines `offered`, that of `answer` left out.
pub open spec fn fresh_forms(answer: Seq<char>, offered: Seq<Seq<char>>) -> Set<Seq<char>> {
    Set::new(
        |form: Seq<char>|
            form != lowercase_of(answer) && exists|k: int|
                0 <= k < offered.len() && #[trigger] lowercase_of(offered[k]) == form,
    )
}

/// As many distractors are chosen as the lines offered allow: `count` of
/// them, or one for each lower-case form among the lines offered, that of the
/// answer aside, where those are fewer.
pub proof fn lemma_collect_complete(answer: Seq<char>, offered: Seq<Seq<char>>, count: nat)
    ensures
        fresh_forms(answer, offered).finite(),
        collect(answer, offered, count).len() == if fresh_forms(answer, offered).len() < count {
            fresh_forms(answer, offered).len()
        } else {
            count
        },
{
    lemma_collect_covers(answer, offered, count);
}

/// While fewer than `count` distractors are chosen, their lower-case forms
/// are exactly those of the lines offered, that of the answer aside.
proof fn lemma_collect_covers(answer: Seq<char>, offered: Seq<Seq<char>>, count: nat)
    ensures
        fresh_forms(answer, offered).finite(),
        collect(answer, offered, count).len() <= fresh_forms(answer, offered).len(),
        collect(answer, offered, count).len() <= count,
        forall|k: int|
            0 <= k < collect(answer, offered, count).len() ==> fresh_forms(answer, offered).contains(
                lowercase_of(#[trigger] collect(answer, offered, count)[k]),
            ),
        collect(answer, offered, count).len() < count ==> collect(answer, offered, count).len()
            == fresh_forms(answer, offered).len() && forall|form: Seq<char>|
            fresh_forms(answer, offered).contains(form) ==> exists|k: int|
                0 <= k < collect(answer, offered, count).len() && #[trigger] lowercase_of(
                    collect(answer, offered, count)[k],
                ) == form,
    decreases offered.len(),
{
    let forms = fresh_forms(answer, offered);
    if offered.len() == 0 {
        assert(forms =~= Set::<Seq<char>>::empty());
    } else {
        let shorter = offered.drop_last();
        let line = offered.last();
        let form = lowercase_of(line);
        let before = collect(answer, shorter, count);
        let after = collect(answer, offered, count);
        let old_forms = fresh_forms(answer, shorter);
        lemma_collect_covers(answer, shorter, count);
        assert(offered[offered.len() - 1] == line);
        assert forall|f: Seq<char>| old_forms.contains(f) implies forms.contains(f) by {
            let k = choose|k: int| 0 <= k < shorter.len() && #[trigger] lowercase_of(shorter[k]) == f;
            assert(lowercase_of(offered[k]) == f);
        }
        assert forall|f: Seq<char>| forms.contains(f) implies old_forms.contains(f) || f == form by {
            let k = choose|k: int| 0 <= k < offered.len() && #[trigger] lowercase_of(offered[k]) == f;
            if k < shorter.len() {
                assert(lowercase_of(shorter[k]) == f);
            }
        }
        if form == lowercase_of(answer) || old_forms.contains(form) {
            assert(forms =~= old_forms);
            if before.len() < count {
                if old_forms.contains(form) {
                    let k = choose|k: int|
                        0 <= k < before.len() && #[trigger] lowercase_of(before[k]) == form;
                    assert(same_folded(line, before[k]));
                }
                assert(!is_fresh(line, answer, before));
            }
            assert(after == before);
        } else {
            assert(forms =~= old_forms.insert(form));
            assert(is_fresh(line, answer, before)) by {
                assert forall|k: int| 0 <= k < before.len() implies !same_folded(
                    line,
                    #[trigger] before[k],
                ) by {
                    assert(old_forms.contains(lowercase_of(before[k])));
                }
            }
            if before.len() < count {
                assert(after == before.push(line));
                assert forall|k: int| 0 <= k < after.len() implies forms.contains(
                    lowercase_of(#[trigger] after[k]),
                ) by {
                    if k < before.len() {
                        assert(after[k] == before[k]);
                        assert(old_forms.contains(lowercase_of(before[k])));
                    }
                }
                assert forall|f: Seq<char>| forms.contains(f) implies exists|k: int|
                    0 <= k < after.len() && #[trigger] lowercase_of(after[k]) == f by {
                    if f == form {
                        assert(lowercase_of(after[before.len() as int]) == f);
                    } else {
                        let k = choose|k: int|
                            0 <= k < before.len() && #[trigger] lowercase_of(before[k]) == f;
                        assert(lowercase_of(after[k]) == f);
                    }
                }
            } else {
                assert(after == before);
            }
        }
    }
}

/// Offers `line` as a distractor for `answer`: it is taken where fewer than
/// `count` are chosen and, case aside, it is neither the answer nor one of
/// those chosen.
pub fn offer(chosen: &mut Vec<String>, line: &str, answer: &str, count: usize) -> (taken: bool)
    ensures
        texts(final(chosen)@) == offer_step(answer@, texts(old(chosen)@), line@, count as nat),
        taken == (old(chosen)@.len() < count && is_fresh(line@, answer@, texts(old(chosen)@))),
{
    if chosen.len() >= count || eq_ignoring_case(line, answer) {
        return false;
    }
    let mut k: usize = 0;
    while k < chosen.len()
        invariant
            k <= chosen@.len(),
            chosen@ == old(chosen)@,
            forall|b: int| 0 <= b < k ==> !same_folded(line@, #[trigger] texts(chosen@)[b]),
        decreases chosen@.len() - k,
    {
        if eq_ignoring_case(line, chosen[k].as_str()) {
            assert(same_folded(line@, texts(chosen@)[k as int]));
            return false;
        }
        k += 1;
    }
    chosen.push(line.to_owned());
    assert(texts(chosen@) =~= texts(old(chosen)@).push(line@));
    true
}

/// The number of draws after which sampling for `count` distractors gives up.
pub fn retry_limit(count: usize) -> (cap: usize)
    ensures
        cap == retry_cap(count as nat),
{
    if count <= usize::MAX / RETRY_FACTOR {
        count * RETRY_FACTOR
    } else {
        usize::MAX
    }
}

/// Draws lines from the whole corpus, each line as likely as any other, and
/// offers each as a distractor for `answer` until `count` are chosen.
///
/// Gives up after `RETRY_FACTOR` draws for each distractor asked for, and at
/// once where the corpus has no line. Which lines are drawn is up to the
/// generator. Whichever they are, the outcome is what collecting from them
/// gives, and distractors that come back are `count` lines of the corpus, none
/// the answer and no two the same, case aside. Asked for none, it succeeds.
pub fn pick_distractors(answer: &str, corpus: &Vec<Song>, count: usize, rng: &mut StdRng) -> (outcome:
    Result<Vec<String>, InsufficientDistractorsError>)
    ensures
        exists|offered: Seq<Seq<char>>| sampled(answer@, corpus@, count as nat, offered, outcome),
        outcome matches Ok(chosen) ==> is_distractor_set(
            texts(chosen@),
            answer@,
            corpus@,
            count as nat,
        ),
        count == 0 ==> outcome is Ok,
{
    let refs = all_line_refs(corpus);
    let cap = retry_limit(count);
    let mut chosen: Vec<String> = Vec::new();
    let mut attempts: usize = 0;
    let ghost mut offered: Seq<Seq<char>> = Seq::empty();
    assert(texts(chosen@) =~= collect(answer@, offered, count as nat));
    if refs.len() > 0 {
        while chosen.len() < count && attempts < cap
            invariant
                attempts <= cap,
                attempts == offered.len(),
                cap == retry_cap(count as nat),
                refs@.len() > 0,
                forall|k: int| 0 <= k < refs@.len() ==> is_line_ref(corpus@, #[trigger] refs@[k]),
                texts(chosen@) == collect(answer@, offered, count as nat),
                forall|k: int| 0 <= k < offered.len() ==> is_line_of(corpus@, #[trigger] offered[k]),
            decreases cap - attempts,
        {
            let pick = draw_below(rng, refs.len());
            let at: LineRef = refs[pick];
            assert(is_line_ref(corpus@, at));
            let line: &String = &corpus[at.song].lines[at.line];
            let ghost before = offered;
            offer(&mut chosen, line.as_str(), answer, count);
            proof {
                offered = before.push(line@);
                assert(offered.drop_last() =~= before);
                assert(line_text(corpus@, at) == line@);
            }
            attempts += 1;
        }
    } else {
        assert forall|at: LineRef| !is_line_ref(corpus@, at) by {
            if is_line_ref(corpus@, at) {
                crate::corpus::lemma_line_refs_complete(corpus@, at);
            }
        }
    }
    proof {
        lemma_collect_distinct(answer@, offered, count as nat);
        let got = collect(answer@, offered, count as nat);
        assert forall|k: int| 0 <= k < got.len() implies is_line_of(corpus@, #[trigger] got[k]) by {
            assert(offered.contains(got[k]));
            let w = choose|w: int| 0 <= w < offered.len() && offered[w] == got[k];
            assert(is_line_of(corpus@, offered[w]));
        }
    }
    if chosen.len() == count {
        let outcome = Ok(chosen);
        assert(sampled(answer@, corpus@, count as nat, offered, outcome));
        outcome
    } else {
        let outcome = Err(InsufficientDistractorsError);
        assert(sampled(answer@, corpus@, count as nat, offered, outcome));
        outcome
    }
}

/// Whether `options` are what multiple choice offers for `answer`: the answer
/// itself and `count` distractors for it, in some order.
pub open spec fn is_choice_list(
    options: Seq<String>,
    answer: String,
    corpus: Seq<Song>,
    count: nat,
) -> bool {
    exists|chosen: Seq<String>|
        is_distractor_set(texts(chosen), answer@, corpus, count) && options.to_multiset()
            == #[trigger] chosen.push(answer).to_multiset()
}

/// Samples `count` distractors for the answer of `question`, adds the answer
/// and shuffles.
///
/// Fails where sampling the distractors fails. Options that come back are the
/// answer and `count` distractors for it, in an order that is up to the
/// generator.
pub fn multiple_choice_options(
    question: &Question,
    corpus: &Vec<Song>,
    count: usize,
    rng: &mut StdRng,
) -> (outcome: Result<Vec<String>, InsufficientDistractorsError>)
    ensures
        outcome matches Ok(options) ==> is_choice_list(
            options@,
            question.answer,
            corpus@,
            count as nat,
        ) && options@.len() == count + 1,
        count == 0 ==> outcome is Ok,
{
    match pick_distractors(question.answer.as_str(), corpus, count, rng) {
        Ok(chosen) => {
            let ghost distractors = chosen@;
            let mut options = chosen;
            options.push(question.answer.clone());
            let ghost unshuffled = options@;
            shuffle_lines(&mut options, rng);
            proof {
                assert(unshuffled == distractors.push(question.answer));
                unshuffled.to_multiset_ensures();
                options@.to_multiset_ensures();
            }
            Ok(options)
        },
        Err(e) => Err(e),
    }
}

} // verus!
