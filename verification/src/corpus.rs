//! The song corpus: songs with their lines, questions about a line and the
//! line that follows it, and the positions of all lines.

use vstd::prelude::*;

verus! {

/// A song: where it comes from, its lyrics as loaded, and its lines in order.
#[derive(Clone, Debug)]
pub struct Song {
    pub album: String,
    pub name: String,
    pub lyrics_raw: String,
    pub lines: Vec<String>,
}

impl Song {
    /// No line of the song is empty.
    pub open spec fn wf(&self) -> bool {
        forall|k: int| 0 <= k < self.lines@.len() ==> (#[trigger] self.lines@[k])@.len() > 0
    }

    /// The song has a line that is followed by another one.
    pub open spec fn is_eligible(&self) -> bool {
        self.lines@.len() >= 2
    }
}

/// A line shown to the player and the line that follows it in the same song.
#[derive(Clone, Debug)]
pub struct Question {
    /// The line that is shown.
    pub shown_line: String,
    /// The line that the player is to recall.
    pub answer: String,
    /// Index of the song in the corpus.
    pub song: usize,
    /// Index of the shown line among the song's lines.
    pub line: usize,
}

impl Question {
    /// The question shows a line of a song of `corpus` and asks for the line
    /// right after it.
    pub open spec fn asks_about(&self, corpus: Seq<Song>) -> bool {
        &&& self.song < corpus.len()
        &&& self.line + 1 < corpus[self.song as int].lines@.len()
        &&& self.shown_line@ == corpus[self.song as int].lines@[self.line as int]@
        &&& self.answer@ == corpus[self.song as int].lines@[self.line + 1]@
    }
}

/// A question about a corpus whose songs have no empty line shows a line that
/// is not empty and asks for one that is not empty, the two being neighbours
/// in the song.
pub proof fn lemma_question_lines(question: Question, corpus: Seq<Song>)
    requires
        question.asks_about(corpus),
        forall|s: int| 0 <= s < corpus.len() ==> (#[trigger] corpus[s]).wf(),
    ensures
        question.shown_line@.len() > 0,
        question.answer@.len() > 0,
        corpus[question.song as int].is_eligible(),
{
    let song = corpus[question.song as int];
    assert(song.wf());
    assert(song.lines@[question.line as int]@.len() > 0);
    assert(song.lines@[question.line + 1]@.len() > 0);
}

/// The position of a line: its song and its place in the song.
#[derive(Clone, Copy, Debug, PartialEq, Eq, Structural)]
pub struct LineRef {
    pub song: usize,
    pub line: usize,
}

/// The texts of a list of lines.
pub open spec fn texts(lines: Seq<String>) -> Seq<Seq<char>> {
    Seq::new(lines.len(), |k: int| lines[k]@)
}

/// Whether `at` is the position of a line of `corpus`.
pub open spec fn is_line_ref(corpus: Seq<Song>, at: LineRef) -> bool {
    at.song < corpus.len() && at.line < corpus[at.song as int].lines@.len()
}

/// Whether `text` is a line of some song of `corpus`.
pub open spec fn is_line_of(corpus: Seq<Song>, text: Seq<char>) -> bool {
    exists|at: LineRef| is_line_ref(corpus, at) && #[trigger] line_text(corpus, at) == text
}

/// The text of the line at a position.
pub open spec fn line_text(corpus: Seq<Song>, at: LineRef) -> Seq<char> {
    corpus[at.song as int].lines@[at.line as int]@
}

/// The positions of the first `lines` lines of the song at index `song`.
pub open spec fn song_refs(song: int, lines: int) -> Seq<LineRef> {
    Seq::new(lines as nat, |l: int| LineRef { song: song as usize, line: l as usize })
}

/// The positions of all lines of `corpus`, song after song.
pub open spec fn line_refs(corpus: Seq<Song>) -> Seq<LineRef>
    decreases corpus.len(),
{
    if corpus.len() == 0 {
        Seq::empty()
    } else {
        line_refs(corpus.drop_last()) + song_refs(
            corpus.len() - 1,
            corpus.last().lines@.len() as int,
        )
    }
}

/// Lists the positions of all lines of `corpus`, song after song.
pub fn all_line_refs(corpus: &Vec<Song>) -> (refs: Vec<LineRef>)
    ensures
        refs@ == line_refs(corpus@),
        forall|k: int| 0 <= k < refs@.len() ==> is_line_ref(corpus@, #[trigger] refs@[k]),
{
    let mut refs: Vec<LineRef> = Vec::new();
    let mut s: usize = 0;
    assert(corpus@.take(0) =~= Seq::<Song>::empty());
    while s < corpus.len()
        invariant
            s <= corpus@.len(),
            refs@ == line_refs(corpus@.take(s as int)),
            forall|k: int| 0 <= k < refs@.len() ==> is_line_ref(corpus@, #[trigger] refs@[k]),
        decreases corpus@.len() - s,
    {
        let count: usize = corpus[s].lines.len();
        let ghost before = refs@;
        let mut l: usize = 0;
        assert(refs@ =~= before + song_refs(s as int, 0));
        while l < count
            invariant
                l <= count,
                s < corpus@.len(),
                count == corpus@[s as int].lines@.len(),
                refs@ == before + song_refs(s as int, l as int),
                forall|k: int| 0 <= k < refs@.len() ==> is_line_ref(corpus@, #[trigger] refs@[k]),
            decreases count - l,
        {
            refs.push(LineRef { song: s, line: l });
            l += 1;
            assert(refs@ =~= before + song_refs(s as int, l as int));
        }
        proof {
            let upto = corpus@.take(s + 1);
            assert(upto.drop_last() =~= corpus@.take(s as int));
            assert(upto.last() == corpus@[s as int]);
        }
        s += 1;
    }
    assert(corpus@.take(corpus@.len() as int) =~= corpus@);
    refs
}

/// Whether `songs` lists, in increasing order, the indices of exactly the
/// songs of `corpus` that have a line followed by another.
pub open spec fn lists_eligible(corpus: Seq<Song>, songs: Seq<usize>) -> bool {
    &&& forall|k: int|
        0 <= k < songs.len() ==> (#[trigger] songs[k]) < corpus.len() && corpus[songs[k] as int].is_eligible()
    &&& forall|a: int, b: int| 0 <= a < b < songs.len() ==> songs[a] < songs[b]
    &&& forall|s: int|
        0 <= s < corpus.len() && (#[trigger] corpus[s]).is_eligible() ==> songs.contains(s as usize)
}

/// Lists the songs that a question can be asked about.
pub fn eligible_songs(corpus: &Vec<Song>) -> (songs: Vec<usize>)
    ensures
        lists_eligible(corpus@, songs@),
{
    let mut songs: Vec<usize> = Vec::new();
    let mut s: usize = 0;
    while s < corpus.len()
        invariant
            s <= corpus@.len(),
            forall|k: int|
                0 <= k < songs@.len() ==> (#[trigger] songs@[k]) < s && corpus@[songs@[k] as int].is_eligible(),
            forall|a: int, b: int| 0 <= a < b < songs@.len() ==> songs@[a] < songs@[b],
            forall|e: int|
                0 <= e < s && (#[trigger] corpus@[e]).is_eligible() ==> songs@.contains(e as usize),
        decreases corpus@.len() - s,
    {
        if corpus[s].lines.len() >= 2 {
            let ghost before = songs@;
            songs.push(s);
            proof {
                assert(songs@[before.len() as int] == s);
                assert forall|e: int|
                    0 <= e < s + 1 && (#[trigger] corpus@[e]).is_eligible() implies songs@.contains(
                    e as usize,
                ) by {
                    if e < s {
                        assert(before.contains(e as usize));
                        let k = choose|k: int| 0 <= k < before.len() && before[k] == e as usize;
                        assert(songs@[k] == e as usize);
                    }
                }
            }
        }
        s += 1;
    }
    songs
}

/// The question about line `line` of song `song`, where that line exists and
/// another one follows it.
pub fn question_at(corpus: &Vec<Song>, song: usize, line: usize) -> (question: Option<Question>)
    ensures
        question is Some <==> song < corpus@.len() && line + 1 < corpus@[song as int].lines@.len(),
        question matches Some(q) ==> q.asks_about(corpus@) && q.song == song && q.line == line,
{
    if song >= corpus.len() {
        return None;
    }
    let lines = &corpus[song].lines;
    if line >= lines.len() || lines.len() - line < 2 {
        return None;
    }
    Some(Question { shown_line: lines[line].clone(), answer: lines[line + 1].clone(), song, line })
}

/// Every position of a line of `corpus` is among the positions listed.
pub proof fn lemma_line_refs_complete(corpus: Seq<Song>, at: LineRef)
    requires
        is_line_ref(corpus, at),
    ensures
        line_refs(corpus).contains(at),
    decreases corpus.len(),
{
    let last = corpus.len() - 1;
    let head = line_refs(corpus.drop_last());
    let tail = song_refs(last, corpus.last().lines@.len() as int);
    if at.song == last {
        assert(tail[at.line as int] == at);
        assert(line_refs(corpus)[head.len() + at.line] == at);
    } else {
        lemma_line_refs_complete(corpus.drop_last(), at);
        let k = choose|k: int| 0 <= k < head.len() && head[k] == at;
        assert(line_refs(corpus)[k] == at);
    }
}

} // verus!
