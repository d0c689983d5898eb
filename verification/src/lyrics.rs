//! From the lyrics of a song as loaded to its lines: the text is cut at line
//! breaks, each piece is stripped of the white space around it, and pieces
//! with nothing left are dropped.

use crate::corpus::{texts, Song};
use crate::text::chars_of;
use vstd::prelude::*;
use vstd::string::StrSliceExecFns;

verus! {

/// Whether a character is white space, as the standard library tells.
pub uninterp spec fn is_space(c: char) -> bool;

/// Calls `char::is_whitespace`. The answer depends on the character alone.
#[verifier::external_body]
pub(crate) fn is_whitespace(c: char) -> (yes: bool)
    ensures
        yes == is_space(c),
{
    c.is_whitespace()
}

/// The position of the first line break of `text` at or after `from`, or the
/// length of `text` where none follows.
pub open spec fn line_end(text: Seq<char>, from: int) -> int
    decreases text.len() - from,
{
    if from >= text.len() {
        text.len() as int
    } else if text[from] == '\n' {
        from
    } else {
        line_end(text, from + 1)
    }
}

/// The position of the first character of `text` in `from .. to` that is not
/// white space, or `to` where all are.
pub open spec fn trim_start(text: Seq<char>, from: int, to: int) -> int
    decreases to - from,
{
    if from >= to {
        to
    } else if !is_space(text[from]) {
        from
    } else {
        trim_start(text, from + 1, to)
    }
}

/// The position after the last character of `text` in `from .. to` that is
/// not white space, or `from` where all are.
pub open spec fn trim_end(text: Seq<char>, from: int, to: int) -> int
    decreases to - from,
{
    if to <= from {
        from
    } else if !is_space(text[to - 1]) {
        to
    } else {
        trim_end(text, from, to - 1)
    }
}

/// The piece `from .. to` of `text` without the white space around it.
pub open spec fn trimmed(text: Seq<char>, from: int, to: int) -> Seq<char> {
    let start = trim_start(text, from, to);
    text.subrange(start, trim_end(text, start, to))
}

/// The lines of `text` from position `from` on.
pub open spec fn lines_from(text: Seq<char>, from: int) -> Seq<Seq<char>>
    decreases text.len() + 1 - from,
    when 0 <= from
    via lines_from_decreases
{
    if from > text.len() {
        Seq::empty()
    } else {
        let end = line_end(text, from);
        let line = trimmed(text, from, end);
        let rest = lines_from(text, end + 1);
        if line.len() > 0 {
            seq![line] + rest
        } else {
            rest
        }
    }
}

#[via_fn]
proof fn lines_from_decreases(text: Seq<char>, from: int) {
    if from <= text.len() {
        lemma_line_end_bounds(text, from);
    }
}

/// The lines of a text: its pieces between line breaks, each without the
/// white space around it, those with nothing left dropped.
pub open spec fn lines_of(text: Seq<char>) -> Seq<Seq<char>> {
    lines_from(text, 0)
}

/// A line ends at or after the position it is looked for from, within the
/// text, at a line break or at the end, with no line break before it.
pub proof fn lemma_line_end_bounds(text: Seq<char>, from: int)
    requires
        0 <= from <= text.len(),
    ensures
        from <= line_end(text, from) <= text.len(),
        line_end(text, from) < text.len() ==> text[line_end(text, from)] == '\n',
        forall|k: int| from <= k < line_end(text, from) ==> text[k] != '\n',
    decreases text.len() - from,
{
    if from < text.len() && text[from] != '\n' {
        lemma_line_end_bounds(text, from + 1);
    }
}

/// Trimming leaves a piece inside the piece it was given, with no white
/// space at either end.
pub proof fn lemma_trim_bounds(text: Seq<char>, from: int, to: int)
    requires
        0 <= from <= to <= text.len(),
    ensures
        from <= trim_start(text, from, to) <= to,
        trim_start(text, from, to) < to ==> !is_space(text[trim_start(text, from, to)]),
        from <= trim_end(text, from, to) <= to,
        trim_end(text, from, to) > from ==> !is_space(text[trim_end(text, from, to) - 1]),
    decreases to - from,
{
    if from < to {
        if is_space(text[from]) {
            lemma_trim_bounds(text, from + 1, to);
        }
        if is_space(text[to - 1]) {
            lemma_trim_bounds(text, from, to - 1);
        }
    }
}

/// No line of a text is empty, begins or ends with white space, or holds a
/// line break.
pub proof fn lemma_lines_are_trimmed(text: Seq<char>, from: int)
    requires
        0 <= from,
    ensures
        forall|k: int|
            0 <= k < lines_from(text, from).len() ==> {
                let line = #[trigger] lines_from(text, from)[k];
                &&& line.len() > 0
                &&& !is_space(line[0])
                &&& !is_space(line[line.len() - 1])
                &&& !line.contains('\n')
            },
    decreases text.len() + 1 - from,
{
    if from <= text.len() {
        lemma_line_end_bounds(text, from);
        let end = line_end(text, from);
        lemma_trim_bounds(text, from, end);
        let start = trim_start(text, from, end);
        lemma_trim_bounds(text, start, end);
        lemma_lines_are_trimmed(text, end + 1);
        let line = trimmed(text, from, end);
        let rest = lines_from(text, end + 1);
        assert forall|k: int| 0 <= k < lines_from(text, from).len() implies {
            let found = #[trigger] lines_from(text, from)[k];
            &&& found.len() > 0
            &&& !is_space(found[0])
            &&& !is_space(found[found.len() - 1])
            &&& !found.contains('\n')
        } by {
            if line.len() > 0 {
                if k == 0 {
                    assert(lines_from(text, from)[0] == line);
                    if line.contains('\n') {
                        let w = choose|w: int| 0 <= w < line.len() && line[w] == '\n';
                        assert(text[start + w] == '\n');
                    }
                } else {
                    assert(lines_from(text, from)[k] == rest[k - 1]);
                }
            }
        }
    }
}

/// Cuts the lyrics of a song into its lines.
pub fn split_lines(lyrics: &str) -> (lines: Vec<String>)
    ensures
        texts(lines@) == lines_of(lyrics@),
{
    let chars = chars_of(lyrics);
    let n: usize = chars.len();
    let ghost text = lyrics@;
    let mut lines: Vec<String> = Vec::new();
    let mut start: usize = 0;
    let mut done = false;
    assert(texts(lines@) + lines_from(text, 0) =~= lines_of(text));
    while !done
        invariant
            n == text.len(),
            chars@ == text,
            text == lyrics@,
            start <= n,
            !done ==> texts(lines@) + lines_from(text, start as int) == lines_of(text),
            done ==> texts(lines@) == lines_of(text),
        decreases n - start + if done { 0int } else { 1int },
    {
        let mut end: usize = start;
        while end < n && chars[end] != '\n'
            invariant
                n == text.len(),
                chars@ == text,
                start <= end <= n,
                line_end(text, end as int) == line_end(text, start as int),
            decreases n - end,
        {
            end += 1;
        }
        let mut a: usize = start;
        while a < end && is_whitespace(chars[a])
            invariant
                chars@ == text,
                start <= a <= end <= n,
                n == text.len(),
                trim_start(text, a as int, end as int) == trim_start(text, start as int, end as int),
            decreases end - a,
        {
            a += 1;
        }
        let mut b: usize = end;
        while b > a && is_whitespace(chars[b - 1])
            invariant
                chars@ == text,
                a <= b <= end <= n,
                n == text.len(),
                trim_end(text, a as int, b as int) == trim_end(text, a as int, end as int),
            decreases b - a,
        {
            b -= 1;
        }
        let ghost before = texts(lines@);
        let ghost line = trimmed(text, start as int, end as int);
        let ghost rest = lines_from(text, end + 1);
        assert(line == text.subrange(a as int, b as int));
        if a < b {
            let piece = lyrics.substring_char(a, b);
            lines.push(piece.to_owned());
            assert(texts(lines@) =~= before + seq![line]);
            assert(texts(lines@) + rest =~= before + (seq![line] + rest));
        }
        if end == n {
            done = true;
            assert(rest =~= Seq::<Seq<char>>::empty());
            assert(texts(lines@) + rest =~= texts(lines@));
        } else {
            start = end + 1;
        }
    }
    lines
}

/// Whether a line of lyrics as loaded, once the white space around it is
/// gone, is the line `shown`.
pub fn is_shown_line(raw_line: &str, shown: &str) -> (hit: bool)
    ensures
        hit == (trimmed(raw_line@, 0, raw_line@.len() as int) == shown@),
{
    let chars = chars_of(raw_line);
    let n: usize = chars.len();
    let mut a: usize = 0;
    while a < n && is_whitespace(chars[a])
        invariant
            chars@ == raw_line@,
            a <= n,
            n == raw_line@.len(),
            trim_start(raw_line@, a as int, n as int) == trim_start(raw_line@, 0, n as int),
        decreases n - a,
    {
        a += 1;
    }
    let mut b: usize = n;
    while b > a && is_whitespace(chars[b - 1])
        invariant
            chars@ == raw_line@,
            a <= b <= n,
            n == raw_line@.len(),
            trim_end(raw_line@, a as int, b as int) == trim_end(raw_line@, a as int, n as int),
        decreases b - a,
    {
        b -= 1;
    }
    let piece: String = raw_line.substring_char(a, b).to_owned();
    let wanted: String = shown.to_owned();
    piece == wanted
}

impl Song {
    /// A song with the given lyrics, and with the lines that the lyrics hold.
    pub fn from_lyrics(album: String, name: String, lyrics_raw: String) -> (song: Song)
        ensures
            song.album == album,
            song.name == name,
            song.lyrics_raw == lyrics_raw,
            texts(song.lines@) == lines_of(lyrics_raw@),
            song.wf(),
    {
        let lines = split_lines(lyrics_raw.as_str());
        proof {
            lemma_lines_are_trimmed(lyrics_raw@, 0);
            assert forall|k: int| 0 <= k < lines@.len() implies (#[trigger] lines@[k])@.len() > 0 by {
                assert(texts(lines@)[k] == lines@[k]@);
            }
        }
        Song { album, name, lyrics_raw, lines }
    }
}

} // verus!
