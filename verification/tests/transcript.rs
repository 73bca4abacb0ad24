use wayvr_dictation::error::WhisperSttError;
use wayvr_dictation::transcript::{
    is_blank_text, is_whitespace_char, normalize_transcript, transcript_of,
};

fn tidy(text: &str) -> String {
    normalize_transcript(text.to_string())
}

#[test]
fn normalize_transcript_collapses_whitespace() {
    assert_eq!(
        normalize_transcript("  Merhaba   ben  Ali. ".to_string()),
        "Merhaba ben Ali."
    );
    assert_eq!(normalize_transcript("\n\ttek\n".to_string()), "tek");
    assert_eq!(normalize_transcript(String::new()), "");
    assert_eq!(normalize_transcript("   ".to_string()), "");
}

#[test]
fn white_space_is_what_unicode_says() {
    let mut found = 0;
    for code in 0..=0x10ffff_u32 {
        if let Some(c) = char::from_u32(code) {
            assert_eq!(is_whitespace_char(c), c.is_whitespace(), "U+{code:04X}");
            if c.is_whitespace() {
                found += 1;
            }
        }
    }
    assert_eq!(found, 25);
}

#[test]
fn normalizing_agrees_with_splitting_and_joining() {
    for text in [
        "a",
        " a",
        "a ",
        "a b",
        "a\u{a0}\u{2003}b\u{3000}",
        "\u{85}x\u{2028}y\u{2029}z\u{1680}",
        "Te\u{15f}ekk\u{fc}rler  Altyaz\u{131}\r\nM.K.",
        "zero\u{200b}width",
        "\u{1f399} mic\tcheck\u{b}\u{c}ok",
    ] {
        let expected = text.split_whitespace().collect::<Vec<_>>().join(" ");
        assert_eq!(tidy(text), expected);
    }
}

#[test]
fn normalizing_twice_changes_nothing() {
    let once = tidy(" one \n two\tthree  ");
    assert_eq!(once, "one two three");
    assert_eq!(tidy(&once), once);
}

#[test]
fn normalizing_keeps_words_and_letters() {
    let text = "  keep\t\tevery \n letter ";
    let spoken = |t: &str| t.chars().filter(|c| !c.is_whitespace()).collect::<String>();
    assert_eq!(spoken(&tidy(text)), spoken(text));
    assert_eq!(
        tidy(text).split_whitespace().collect::<Vec<_>>(),
        text.split_whitespace().collect::<Vec<_>>()
    );
}

#[test]
fn only_blank_text_becomes_empty() {
    assert!(tidy(" \t\u{2009}").is_empty());
    assert!(!tidy(" . ").is_empty());
    assert!(is_blank_text(""));
    assert!(is_blank_text(" \n\u{3000}"));
    assert!(!is_blank_text(" x "));
}

#[test]
fn transcript_joins_segments_before_tidying() {
    let segments = vec![" Mer".to_string(), "haba ".to_string(), " ben  Ali.".to_string()];
    assert_eq!(transcript_of(Ok(segments)).unwrap(), "Merhaba ben Ali.");
    assert_eq!(transcript_of(Ok(Vec::new())).unwrap(), "");
}

#[test]
fn failed_decode_is_a_whisper_error() {
    match transcript_of(Err("no samples".to_string())) {
        Err(WhisperSttError::Whisper(e)) => assert_eq!(e, "no samples"),
        other => panic!("{other:?}"),
    }
}
