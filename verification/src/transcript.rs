//! Tidying of what the speech model wrote.
//!
//! The model pads its segments with stray spaces and line breaks. A transcript
//! is shown and pasted as its words, one space between neighbours.

use crate::error::WhisperSttError;
use vstd::prelude::*;

verus! {

/// `String::push` appends one character at the end of the string.
pub assume_specification[ String::push ](s: &mut String, ch: char)
    ensures
        final(s)@ == old(s)@.push(ch),
;

/// The Unicode property `White_Space`.
pub open spec fn is_white_space(c: char) -> bool {
    let code = c as u32;
    ||| 0x09 <= code <= 0x0d
    ||| code == 0x20
    ||| code == 0x85
    ||| code == 0xa0
    ||| code == 0x1680
    ||| 0x2000 <= code <= 0x200a
    ||| code == 0x2028
    ||| code == 0x2029
    ||| code == 0x202f
    ||| code == 0x205f
    ||| code == 0x3000
}

/// Whether every character of `text` is white space.
pub open spec fn is_blank(text: Seq<char>) -> bool {
    forall|i: int| 0 <= i < text.len() ==> is_white_space(#[trigger] text[i])
}

/// The words of `text` in order: its maximal runs of characters that are not
/// white space.
pub open spec fn words(text: Seq<char>) -> Seq<Seq<char>>
    decreases text.len(),
{
    if text.len() == 0 {
        Seq::empty()
    } else {
        let before = words(text.drop_last());
        if is_white_space(text.last()) {
            before
        } else if ends_inside_word(text.drop_last()) {
            before.drop_last().push(before.last().push(text.last()))
        } else {
            before.push(seq![text.last()])
        }
    }
}

/// Whether a character that follows `text` continues its last word.
pub open spec fn ends_inside_word(text: Seq<char>) -> bool {
    text.len() > 0 && !is_white_space(text.last())
}

/// `parts` one after the other, with one space between neighbours.
pub open spec fn spaced(parts: Seq<Seq<char>>) -> Seq<char>
    decreases parts.len(),
{
    if parts.len() == 0 {
        Seq::empty()
    } else if parts.len() == 1 {
        parts[0]
    } else {
        spaced(parts.drop_last()).push(' ') + parts.last()
    }
}

/// The tidy form of `text`: its words, one space between neighbours.
pub open spec fn normalized(text: Seq<char>) -> Seq<char> {
    spaced(words(text))
}

/// The characters of `text` that are not white space, in order.
pub open spec fn spoken(text: Seq<char>) -> Seq<char> {
    text.filter(|c: char| !is_white_space(c))
}

/// `parts` one after the other, with nothing between them.
pub open spec fn joined(parts: Seq<Seq<char>>) -> Seq<char>
    decreases parts.len(),
{
    if parts.len() == 0 {
        Seq::empty()
    } else {
        joined(parts.drop_last()) + parts.last()
    }
}

/// Whether `part` is a word: not empty, and free of white space.
pub open spec fn is_word(part: Seq<char>) -> bool {
    &&& part.len() > 0
    &&& forall|i: int| 0 <= i < part.len() ==> !is_white_space(#[trigger] part[i])
}

/// Every part that `words` yields is a word, and there is one at least where
/// the text ends inside one.
proof fn lemma_words_are_words(text: Seq<char>)
    ensures
        forall|i: int| 0 <= i < words(text).len() ==> is_word(#[trigger] words(text)[i]),
        ends_inside_word(text) ==> words(text).len() > 0,
    decreases text.len(),
{
    if text.len() > 0 {
        lemma_words_are_words(text.drop_last());
        let before = words(text.drop_last());
        if before.len() > 0 {
            assert(is_word(before[before.len() - 1]));
        }
    }
}

/// A longer last part makes the spaced text longer by the same character.
proof fn lemma_spaced_grows(parts: Seq<Seq<char>>, c: char)
    requires
        parts.len() > 0,
    ensures
        spaced(parts.drop_last().push(parts.last().push(c))) == spaced(parts).push(c),
{
    let longer = parts.drop_last().push(parts.last().push(c));
    assert(longer.drop_last() =~= parts.drop_last());
    assert(spaced(longer) =~= spaced(parts).push(c));
}

/// A further part comes after a space, unless it is the first.
proof fn lemma_spaced_push(parts: Seq<Seq<char>>, part: Seq<char>)
    ensures
        parts.len() == 0 ==> spaced(parts.push(part)) == part,
        parts.len() > 0 ==> spaced(parts.push(part)) == spaced(parts).push(' ') + part,
{
    assert(parts.push(part).drop_last() =~= parts);
}

/// Whether `c` has the Unicode property `White_Space`.
pub fn is_whitespace_char(c: char) -> (yes: bool)
    ensures
        yes == is_white_space(c),
{
    let code: u32 = c as u32;
    (0x09 <= code && code <= 0x0d) || code == 0x20 || code == 0x85 || code == 0xa0 || code == 0x1680
        || (0x2000 <= code && code <= 0x200a) || code == 0x2028 || code == 0x2029 || code == 0x202f
        || code == 0x205f || code == 0x3000
}

/// Whether `text` holds nothing but white space.
pub fn is_blank_text(text: &str) -> (yes: bool)
    ensures
        yes == is_blank(text@),
{
    for c in chars: text.chars()
        invariant
            chars.seq() == text@,
            forall|i: int| 0 <= i < chars.index() ==> is_white_space(#[trigger] text@[i]),
    {
        if !is_whitespace_char(c) {
            assert(!is_white_space(text@[chars.index()]));
            return false;
        }
    }
    true
}

/// The words of `text`, one space between neighbours.
pub fn normalize_transcript(text: String) -> (tidy: String)
    ensures
        tidy@ == normalized(text@),
{
    let mut tidy = String::new();
    let mut inside_word: bool = false;
    let mut any_word: bool = false;
    for c in chars: text.as_str().chars()
        invariant
            chars.seq() == text@,
            tidy@ == normalized(text@.take(chars.index())),
            inside_word == ends_inside_word(text@.take(chars.index())),
            any_word == (words(text@.take(chars.index())).len() > 0),
    {
        let ghost done = text@.take(chars.index());
        let ghost next = text@.take(chars.index() + 1);
        proof {
            assert(next.drop_last() =~= done);
            assert(next.last() == c);
            lemma_words_are_words(done);
        }
        if is_whitespace_char(c) {
            inside_word = false;
        } else {
            proof {
                if inside_word {
                    lemma_spaced_grows(words(done), c);
                } else {
                    lemma_spaced_push(words(done), seq![c]);
                    assert(tidy@.push(' ') + seq![c] =~= tidy@.push(' ').push(c));
                    assert(Seq::<char>::empty().push(c) =~= seq![c]);
                }
            }
            if !inside_word && any_word {
                tidy.push(' ');
            }
            tidy.push(c);
            inside_word = true;
            any_word = true;
        }
    }
    assert(text@.take(text@.len() as int) =~= text@);
    tidy
}

/// What the segments of a decode hold, one after the other.
pub open spec fn segment_texts(segments: Seq<String>) -> Seq<Seq<char>> {
    segments.map_values(|segment: String| segment@)
}

/// The transcript of one utterance, given what the model made of it: its
/// segments in order, or the text of the error with which it failed.
pub fn transcript_of(decoded: Result<Vec<String>, String>) -> (transcript: Result<
    String,
    WhisperSttError,
>)
    ensures
        match decoded {
            Ok(segments) => transcript is Ok && transcript->Ok_0@ == normalized(
                joined(segment_texts(segments@)),
            ),
            Err(e) => transcript == Err::<String, WhisperSttError>(WhisperSttError::Whisper(e)),
        },
{
    match decoded {
        Err(e) => Err(WhisperSttError::Whisper(e)),
        Ok(segments) => {
            let mut text = String::new();
            for i in 0..segments.len()
                invariant
                    text@ == joined(segment_texts(segments@.take(i as int))),
            {
                proof {
                    let texts = segment_texts(segments@.take(i + 1));
                    assert(texts.drop_last() =~= segment_texts(segments@.take(i as int)));
                    assert(texts.last() == segments@[i as int]@);
                }
                text.append(segments[i].as_str());
            }
            assert(segments@.take(segments@.len() as int) =~= segments@);
            Ok(normalize_transcript(text))
        },
    }
}

/// A word that is written behind white space, or first of all, becomes the
/// last of the words.
proof fn lemma_words_take_in(text: Seq<char>, word: Seq<char>)
    requires
        !ends_inside_word(text),
        is_word(word),
    ensures
        words(text + word) == words(text).push(word),
        ends_inside_word(text + word),
    decreases word.len(),
{
    let whole = text + word;
    assert(whole.last() == word[word.len() - 1]);
    assert(whole.drop_last() =~= text + word.drop_last());
    if word.len() == 1 {
        assert(whole.drop_last() =~= text);
        assert(word =~= seq![whole.last()]);
    } else {
        assert forall|i: int| 0 <= i < word.drop_last().len() implies !is_white_space(
            #[trigger] word.drop_last()[i],
        ) by {
            assert(!is_white_space(word[i]));
        }
        lemma_words_take_in(text, word.drop_last());
        assert(words(text).push(word.drop_last()).drop_last() =~= words(text));
        assert(word.drop_last().push(whole.last()) =~= word);
    }
}

/// The words of spaced words are those words.
proof fn lemma_words_of_spaced(parts: Seq<Seq<char>>)
    requires
        forall|i: int| 0 <= i < parts.len() ==> is_word(#[trigger] parts[i]),
    ensures
        words(spaced(parts)) == parts,
    decreases parts.len(),
{
    if parts.len() == 0 {
        assert(parts =~= Seq::empty());
    } else {
        let front = parts.drop_last();
        let last = parts.last();
        assert(is_word(parts[parts.len() - 1]));
        assert forall|i: int| 0 <= i < front.len() implies is_word(#[trigger] front[i]) by {
            assert(is_word(parts[i]));
        }
        lemma_words_of_spaced(front);
        assert(front.push(last) =~= parts);
        if parts.len() == 1 {
            lemma_words_take_in(Seq::empty(), last);
            assert(Seq::<char>::empty() + last =~= last);
            assert(front =~= Seq::empty());
        } else {
            let start = spaced(front).push(' ');
            assert(start.drop_last() =~= spaced(front));
            lemma_words_take_in(start, last);
        }
    }
}

/// Words one after the other are the text without its white space.
proof fn lemma_joined_words_are_spoken(text: Seq<char>)
    ensures
        joined(words(text)) == spoken(text),
    decreases text.len(),
{
    reveal(Seq::filter);
    if text.len() > 0 {
        let rest = text.drop_last();
        let c = text.last();
        let before = words(rest);
        lemma_joined_words_are_spoken(rest);
        lemma_words_are_words(rest);
        if !is_white_space(c) {
            if ends_inside_word(rest) {
                let grown = before.drop_last().push(before.last().push(c));
                assert(grown.drop_last() =~= before.drop_last());
                assert(joined(grown) =~= joined(before).push(c));
            } else {
                assert(before.push(seq![c]).drop_last() =~= before);
                assert(joined(before.push(seq![c])) =~= joined(before).push(c));
            }
        }
    }
}

/// Tidying changes no word: the tidy text has the words of the text, in order.
pub proof fn law_normalizing_keeps_words(text: Seq<char>)
    ensures
        words(normalized(text)) == words(text),
{
    lemma_words_are_words(text);
    lemma_words_of_spaced(words(text));
}

/// Tidying loses and adds no character but white space.
pub proof fn law_normalizing_keeps_what_was_spoken(text: Seq<char>)
    ensures
        spoken(normalized(text)) == spoken(text),
{
    law_normalizing_keeps_words(text);
    lemma_joined_words_are_spoken(text);
    lemma_joined_words_are_spoken(normalized(text));
}

/// A tidy text stays as it is: a transcript may be tidied where it is made and
/// again where it is received.
pub proof fn law_normalizing_twice_changes_nothing(text: Seq<char>)
    ensures
        normalized(normalized(text)) == normalized(text),
{
    law_normalizing_keeps_words(text);
}

/// The tidy form is empty exactly where the text holds nothing but white space.
pub proof fn law_normalized_is_empty_iff_blank(text: Seq<char>)
    ensures
        normalized(text).len() == 0 <==> is_blank(text),
    decreases text.len(),
{
    lemma_words_are_words(text);
    if words(text).len() > 0 {
        assert(is_word(words(text)[words(text).len() - 1]));
    }
    if text.len() > 0 {
        let rest = text.drop_last();
        law_normalized_is_empty_iff_blank(rest);
        lemma_words_are_words(rest);
        if words(rest).len() > 0 {
            assert(is_word(words(rest)[words(rest).len() - 1]));
        }
        if is_white_space(text.last()) && is_blank(rest) {
            assert forall|i: int| 0 <= i < text.len() implies is_white_space(#[trigger] text[i]) by {
                if i < rest.len() {
                    assert(is_white_space(rest[i]));
                }
            }
        }
        if is_blank(text) {
            assert(is_white_space(text[text.len() - 1]));
            assert forall|i: int| 0 <= i < rest.len() implies is_white_space(#[trigger] rest[i]) by {
                assert(is_white_space(text[i]));
            }
        }
    }
}

/// White space in a tidy text is one space between two words: it is never
/// first or last, and it has no white space for a neighbour.
pub proof fn law_normalized_spaces_are_single(text: Seq<char>, i: int)
    requires
        0 <= i < normalized(text).len(),
        is_white_space(normalized(text)[i]),
    ensures
        normalized(text)[i] == ' ',
        0 < i < normalized(text).len() - 1,
        !is_white_space(normalized(text)[i - 1]),
        !is_white_space(normalized(text)[i + 1]),
{
    lemma_words_are_words(text);
    lemma_spaced_spaces_are_single(words(text), i);
}

proof fn lemma_spaced_spaces_are_single(parts: Seq<Seq<char>>, i: int)
    requires
        forall|k: int| 0 <= k < parts.len() ==> is_word(#[trigger] parts[k]),
        0 <= i < spaced(parts).len(),
        is_white_space(spaced(parts)[i]),
    ensures
        spaced(parts)[i] == ' ',
        0 < i < spaced(parts).len() - 1,
        !is_white_space(spaced(parts)[i - 1]),
        !is_white_space(spaced(parts)[i + 1]),
    decreases parts.len(),
{
    let last = parts.last();
    assert(is_word(parts[parts.len() - 1]));
    if parts.len() > 1 {
        let front = parts.drop_last();
        let before = spaced(front);
        assert forall|k: int| 0 <= k < front.len() implies is_word(#[trigger] front[k]) by {
            assert(is_word(parts[k]));
        }
        lemma_spaced_ends_in_word(front);
        if i < before.len() {
            lemma_spaced_spaces_are_single(front, i);
        } else if i == before.len() {
            assert(spaced(parts)[i + 1] == last[0]);
        } else {
            assert(spaced(parts)[i] == last[i - before.len() - 1]);
        }
    } else {
        assert(spaced(parts)[i] == last[i]);
    }
}

proof fn lemma_spaced_ends_in_word(parts: Seq<Seq<char>>)
    requires
        parts.len() > 0,
        forall|k: int| 0 <= k < parts.len() ==> is_word(#[trigger] parts[k]),
    ensures
        ends_inside_word(spaced(parts)),
{
    let last = parts.last();
    assert(is_word(parts[parts.len() - 1]));
    assert(spaced(parts).last() == last[last.len() - 1]);
}

/// White space parts words, and nothing else does: the words of two texts with
/// a white-space character between them are those of the one, then those of the
/// other.
pub proof fn law_white_space_parts_words(a: Seq<char>, c: char, b: Seq<char>)
    requires
        is_white_space(c),
    ensures
        words(a.push(c) + b) == words(a) + words(b),
    decreases b.len(),
{
    let whole = a.push(c) + b;
    if b.len() == 0 {
        assert(whole =~= a.push(c));
        assert(whole.drop_last() =~= a);
        assert(words(a) + words(b) =~= words(a));
    } else {
        let rest = b.drop_last();
        assert(whole.drop_last() =~= a.push(c) + rest);
        assert(whole.last() == b.last());
        law_white_space_parts_words(a, c, rest);
        lemma_words_are_words(rest);
        if rest.len() == 0 {
            assert(whole.drop_last().last() == c);
        } else {
            assert(whole.drop_last().last() == rest.last());
        }
        assert(words(whole) =~= words(a) + words(b));
    }
}

/// A text that is not empty and holds no white space is one word; an empty text
/// has none.
pub proof fn law_unparted_text_is_one_word(text: Seq<char>)
    requires
        forall|i: int| 0 <= i < text.len() ==> !is_white_space(#[trigger] text[i]),
    ensures
        text.len() > 0 ==> words(text) == seq![text],
        text.len() == 0 ==> words(text) == Seq::<Seq<char>>::empty(),
{
    if text.len() > 0 {
        lemma_words_take_in(Seq::empty(), text);
        assert(Seq::<char>::empty() + text =~= text);
        assert(words(Seq::empty()).push(text) =~= seq![text]);
    }
}

/// Between two runs of parts stands one space, and a single part stands as it
/// is.
pub proof fn law_spaced_puts_one_space_between(a: Seq<Seq<char>>, b: Seq<Seq<char>>)
    ensures
        spaced(Seq::empty()) == Seq::<char>::empty(),
        a.len() == 1 ==> spaced(a) == a[0],
        a.len() > 0 && b.len() > 0 ==> spaced(a + b) == spaced(a).push(' ') + spaced(b),
    decreases b.len(),
{
    if a.len() > 0 && b.len() > 0 {
        let rest = b.drop_last();
        assert((a + b).drop_last() =~= a + rest);
        assert((a + b).last() == b.last());
        if rest.len() == 0 {
            assert(a + rest =~= a);
        } else {
            law_spaced_puts_one_space_between(a, rest);
            assert(spaced(a + b) =~= spaced(a).push(' ') + spaced(b));
        }
    }
}

/// What tidying makes of a text, from what it makes of its parts: white space,
/// whatever it is and however much of it, becomes one space between two texts
/// that hold something, and nothing where one of them is blank.
pub proof fn law_white_space_becomes_one_space(a: Seq<char>, c: char, b: Seq<char>)
    requires
        is_white_space(c),
    ensures
        is_blank(a) ==> normalized(a.push(c) + b) == normalized(b),
        is_blank(b) ==> normalized(a.push(c) + b) == normalized(a),
        !is_blank(a) && !is_blank(b) ==> normalized(a.push(c) + b) == normalized(a).push(' ')
            + normalized(b),
{
    law_white_space_parts_words(a, c, b);
    law_blank_text_has_no_words(a);
    law_blank_text_has_no_words(b);
    if is_blank(a) {
        assert(words(a) + words(b) =~= words(b));
    }
    if is_blank(b) {
        assert(words(a) + words(b) =~= words(a));
    }
    law_spaced_puts_one_space_between(words(a), words(b));
}

/// A text without white space is tidy as it is.
pub proof fn law_unparted_text_stays(text: Seq<char>)
    requires
        forall|i: int| 0 <= i < text.len() ==> !is_white_space(#[trigger] text[i]),
    ensures
        normalized(text) == text,
{
    law_unparted_text_is_one_word(text);
    if text.len() == 0 {
        assert(normalized(text) =~= text);
    }
}

/// Blank texts, and they alone, have no words.
pub proof fn law_blank_text_has_no_words(text: Seq<char>)
    ensures
        words(text).len() == 0 <==> is_blank(text),
{
    law_normalized_is_empty_iff_blank(text);
    lemma_words_are_words(text);
    if words(text).len() > 0 {
        lemma_spaced_ends_in_word(words(text));
    }
}

/// A text is blank where all its parts are; a single character, where it is
/// white space.
pub proof fn law_blank_means_all_white_space(a: Seq<char>, b: Seq<char>, c: char)
    ensures
        is_blank(Seq::empty()),
        is_blank(seq![c]) <==> is_white_space(c),
        is_blank(a + b) <==> is_blank(a) && is_blank(b),
{
    if is_blank(seq![c]) {
        assert(is_white_space(seq![c][0]));
    }
    if is_blank(a + b) {
        assert forall|i: int| 0 <= i < a.len() implies is_white_space(#[trigger] a[i]) by {
            assert((a + b)[i] == a[i]);
        }
        assert forall|i: int| 0 <= i < b.len() implies is_white_space(#[trigger] b[i]) by {
            assert((a + b)[a.len() + i] == b[i]);
        }
    }
}

/// Every segment is there, in order, as it is.
pub proof fn law_every_segment_is_heard(segments: Seq<String>, more: Seq<String>, segment: String)
    ensures
        joined(segment_texts(Seq::empty())) == Seq::<char>::empty(),
        joined(segment_texts(seq![segment])) == segment@,
        joined(segment_texts(segments + more)) == joined(segment_texts(segments)) + joined(
            segment_texts(more),
        ),
    decreases more.len(),
{
    assert(segment_texts(Seq::empty()) =~= Seq::empty());
    assert(segment_texts(seq![segment]).drop_last() =~= Seq::empty());
    assert(joined(Seq::empty()) =~= Seq::empty());
    assert(joined(segment_texts(seq![segment])) =~= segment@);
    if more.len() == 0 {
        assert(segments + more =~= segments);
        assert(segment_texts(more) =~= Seq::empty());
        assert(joined(segment_texts(segments)) + Seq::<char>::empty() =~= joined(
            segment_texts(segments),
        ));
    } else {
        let rest = more.drop_last();
        law_every_segment_is_heard(segments, rest, segment);
        assert(segment_texts(segments + more).drop_last() =~= segment_texts(segments + rest));
        assert(segment_texts(more).drop_last() =~= segment_texts(rest));
        assert(joined(segment_texts(segments + more)) =~= joined(segment_texts(segments))
            + joined(segment_texts(more)));
    }
}

} // verus!
