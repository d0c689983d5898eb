use lyric_quiz::corpus::Song;
use lyric_quiz::lyrics::{is_shown_line, split_lines};

fn owned(lines: &[&str]) -> Vec<String> {
    lines.iter().map(|l| l.to_string()).collect()
}

#[test]
fn lyrics_are_cut_at_line_breaks() {
    assert_eq!(split_lines("one\ntwo\nthree"), owned(&["one", "two", "three"]));
    assert_eq!(split_lines("one"), owned(&["one"]));
}

#[test]
fn white_space_around_a_line_is_dropped() {
    assert_eq!(
        split_lines("  one \t\n\ttwo words  \r\n three"),
        owned(&["one", "two words", "three"])
    );
}

#[test]
fn lines_with_nothing_left_are_dropped() {
    assert_eq!(split_lines("one\n\n   \n\t\ntwo\n"), owned(&["one", "two"]));
    assert_eq!(split_lines(""), owned(&[]));
    assert_eq!(split_lines("\n\n\n"), owned(&[]));
    assert_eq!(split_lines("   "), owned(&[]));
}

#[test]
fn white_space_inside_a_line_stays() {
    assert_eq!(split_lines(" a  b \n"), owned(&["a  b"]));
}

#[test]
fn the_lines_agree_with_the_standard_library() {
    let lyrics = " I stay out too late \n\nGot nothing in my brain\u{a0}\n\u{2003}That's what people say, mm-mm\r\n\n";
    let expected: Vec<String> = lyrics
        .split('\n')
        .map(|l| l.trim().to_string())
        .filter(|l| !l.is_empty())
        .collect();
    assert_eq!(split_lines(lyrics), expected);
    assert_eq!(expected.len(), 3);
}

#[test]
fn a_song_holds_the_lines_of_its_lyrics() {
    let song = Song::from_lyrics(
        "1989".to_string(),
        "Shake It Off".to_string(),
        "I stay out too late\n  Got nothing in my brain\n\n".to_string(),
    );
    assert_eq!(song.album, "1989");
    assert_eq!(song.name, "Shake It Off");
    assert_eq!(song.lyrics_raw, "I stay out too late\n  Got nothing in my brain\n\n");
    assert_eq!(song.lines, owned(&["I stay out too late", "Got nothing in my brain"]));
}

#[test]
fn a_raw_line_is_compared_without_the_space_around_it() {
    assert!(is_shown_line("  Got nothing in my brain \r", "Got nothing in my brain"));
    assert!(is_shown_line("Got nothing in my brain", "Got nothing in my brain"));
    assert!(!is_shown_line("Got nothing in my brain", "got nothing in my brain"));
    assert!(!is_shown_line("Got nothing", "Got nothing in my brain"));
    assert!(is_shown_line("   ", ""));
    assert!(!is_shown_line(" x ", ""));
}
