//! Sentences, and the scan that cuts a text into them.

use crate::chars::{char_is_alphanumeric, char_is_whitespace};
use crate::decimal::{decimal, push_decimal};
use crate::glue::{glue_ratio, glue_words_percentage};
use crate::words::{lemma_normalize_not_empty, normalize, normalize_sentence};
use vstd::prelude::*;
use vstd::string::StringExecFns;
use vstd::utf8::encode_utf8;

verus! {

/// A sentence of the text, with the line on which it began.
#[derive(Debug)]
pub struct Sentence {
    /// The line, counted from 1, of the sentence's first letter or digit.
    pub line_number: usize,
    /// The sentence, with its whitespace normalized.
    pub text: String,
}

/// What a `Sentence` stands for in contracts.
pub struct SentenceView {
    pub line_number: nat,
    pub text: Seq<char>,
}

impl View for Sentence {
    type V = SentenceView;

    open spec fn view(&self) -> SentenceView {
        SentenceView { line_number: self.line_number as nat, text: self.text@ }
    }
}

impl SentenceView {
    /// The sentence as it is written out: its line number, a colon and a
    /// space, and its text between backticks.
    pub open spec fn display(self) -> Seq<char> {
        decimal(self.line_number) + ": `"@ + self.text + "`"@
    }
}

impl DeepView for Sentence {
    type V = SentenceView;

    open spec fn deep_view(&self) -> SentenceView {
        self@
    }
}

impl Sentence {
    /// Whether the line number is one that a line can have: lines are counted
    /// from 1.
    pub open spec fn well_formed(&self) -> bool {
        self.line_number >= 1
    }

    /// A sentence with the given line number and text.
    pub fn new(line_number: usize, text: String) -> (sentence: Self)
        requires
            line_number >= 1,
        ensures
            sentence.well_formed(),
            sentence.line_number == line_number,
            sentence.text == text,
    {
        Self { line_number, text }
    }

    /// The sentence written out: its line number, a colon and a space, and
    /// its text between backticks.
    pub fn display(&self) -> (written: String)
        ensures
            written@ == self@.display(),
    {
        let mut written = String::new();
        push_decimal(&mut written, self.line_number as u64);
        written.append(": `");
        written.append(self.text.as_str());
        written.append("`");
        assert(written@ =~= self@.display());
        written
    }

    /// Whether more than half of the sentence's words are glue words.
    pub fn is_sticky(&self) -> (sticky: bool)
        ensures
            sticky == (glue_ratio(self.text@) > 50),
    {
        glue_words_percentage(self.text.as_str()) > 50
    }
}

/// Whether the scan is inside a sentence.
#[derive(Clone, Copy, Debug, PartialEq, Eq, Structural)]
pub enum SentenceState {
    /// No letter or digit has been read since the last sentence ended.
    NotInSentence,
    /// A letter or digit has been read, and no end of sentence after it.
    InSentence,
}

/// Whether `c` ends a sentence.
pub open spec fn is_terminator(c: char) -> bool {
    c == '.' || c == '?' || c == '!'
}

/// What the scan has found and what it carries after reading some text.
pub struct Scan {
    /// The sentences that were closed, in their order.
    pub emitted: Seq<SentenceView>,
    /// The text read since the last sentence was closed.
    pub buffer: Seq<char>,
    /// The line of the next character, counted from 1.
    pub line: nat,
    /// The line on which the last sentence began that was opened.
    pub start_line: nat,
    pub state: SentenceState,
}

/// The scan before any text is read.
pub open spec fn scan_start() -> Scan {
    Scan {
        emitted: Seq::empty(),
        buffer: Seq::empty(),
        line: 1,
        start_line: 1,
        state: SentenceState::NotInSentence,
    }
}

/// The scan after one more character.
///
/// Every character is kept in the buffer. A terminator closes a sentence made
/// of the buffer, with the start line that was last recorded, whether or not
/// a sentence was open. A newline begins the next line. A letter or digit
/// opens a sentence on the current line unless one is open.
pub open spec fn scan_step(before: Scan, c: char) -> Scan {
    let buffer = before.buffer.push(c);
    if is_terminator(c) {
        Scan {
            emitted: before.emitted.push(
                SentenceView { line_number: before.start_line, text: normalize(buffer) },
            ),
            buffer: Seq::empty(),
            state: SentenceState::NotInSentence,
            ..before
        }
    } else if c == '\n' {
        Scan { buffer, line: before.line + 1, ..before }
    } else if char_is_alphanumeric(c) && before.state == SentenceState::NotInSentence {
        Scan { buffer, start_line: before.line, state: SentenceState::InSentence, ..before }
    } else {
        Scan { buffer, ..before }
    }
}

/// The scan after the whole of `s`, read from left to right.
pub open spec fn scan(s: Seq<char>) -> Scan
    decreases s.len(),
{
    if s.len() == 0 {
        scan_start()
    } else {
        scan_step(scan(s.drop_last()), s.last())
    }
}

/// The sentences of `s`: those that a terminator closed and, where the text
/// ends inside a sentence, one more made of the text that is left.
pub open spec fn sentences_of(s: Seq<char>) -> Seq<SentenceView> {
    let end = scan(s);
    if end.state == SentenceState::InSentence {
        end.emitted.push(
            SentenceView { line_number: end.start_line, text: normalize(end.buffer) },
        )
    } else {
        end.emitted
    }
}

/// How many terminators `s` holds.
pub open spec fn terminators(s: Seq<char>) -> nat {
    s.filter(|c: char| is_terminator(c)).len()
}

/// How many newlines `s` holds.
pub open spec fn newlines(s: Seq<char>) -> nat {
    s.filter(|c: char| c == '\n').len()
}

/// Whether `c`, read outside a sentence, opens one: a letter or digit. A
/// terminator or a newline is taken as such before it is asked for its class.
pub open spec fn opens_sentence(c: char) -> bool {
    !is_terminator(c) && c != '\n' && char_is_alphanumeric(c)
}

/// Whether some character of `s` opens a sentence.
pub open spec fn has_opening(s: Seq<char>) -> bool {
    exists|i: int| 0 <= i < s.len() && opens_sentence(#[trigger] s[i])
}

/// The text behind the last terminator of `s`; all of `s` where it has none.
pub open spec fn unterminated_tail(s: Seq<char>) -> Seq<char>
    decreases s.len(),
{
    if s.len() == 0 || is_terminator(s.last()) {
        Seq::empty()
    } else {
        unterminated_tail(s.drop_last()).push(s.last())
    }
}

/// The unterminated tail is the end of the text from some place on, holds no
/// terminator, and begins at the start of the text or behind a terminator.
pub proof fn lemma_unterminated_tail_is_suffix(s: Seq<char>)
    ensures
        unterminated_tail(s).len() <= s.len(),
        unterminated_tail(s) == s.skip(s.len() - unterminated_tail(s).len()),
        terminators(unterminated_tail(s)) == 0,
        unterminated_tail(s).len() == s.len() || is_terminator(
            s[s.len() - unterminated_tail(s).len() - 1],
        ),
    decreases s.len(),
{
    let terminator = |c: char| is_terminator(c);
    if s.len() == 0 || is_terminator(s.last()) {
        reveal(Seq::filter);
        assert(unterminated_tail(s) =~= s.skip(s.len() as int));
    } else {
        let init = s.drop_last();
        lemma_unterminated_tail_is_suffix(init);
        let tail = unterminated_tail(init);
        assert(tail.push(s.last()) =~= s.skip(s.len() - tail.len() - 1));
        tail.lemma_filter_push(s.last(), terminator);
    }
}

/// What the scan carries after `s`: the unterminated tail as its buffer, one
/// closed sentence for each terminator, the line that follows the newlines
/// read, and an open sentence exactly if the tail holds a letter or digit.
pub proof fn lemma_scan_summary(s: Seq<char>)
    ensures
        scan(s).buffer == unterminated_tail(s),
        scan(s).emitted.len() == terminators(s),
        scan(s).line == 1 + newlines(s),
        scan(s).state == SentenceState::InSentence <==> has_opening(unterminated_tail(s)),
    decreases s.len(),
{
    let terminator = |c: char| is_terminator(c);
    let newline = |c: char| c == '\n';
    if s.len() == 0 {
        reveal(Seq::filter);
    } else {
        let init = s.drop_last();
        let c = s.last();
        lemma_scan_summary(init);
        assert(init.push(c) =~= s);
        init.lemma_filter_push(c, terminator);
        init.lemma_filter_push(c, newline);
        if !is_terminator(c) {
            let tail = unterminated_tail(init);
            let longer = unterminated_tail(s);
            if has_opening(tail) {
                let i = choose|i: int| 0 <= i < tail.len() && opens_sentence(#[trigger] tail[i]);
                assert(opens_sentence(longer[i]));
            }
            if opens_sentence(c) {
                assert(opens_sentence(longer[longer.len() - 1]));
            }
            if has_opening(longer) {
                let i = choose|i: int|
                    0 <= i < longer.len() && opens_sentence(#[trigger] longer[i]);
                if i < tail.len() {
                    assert(opens_sentence(tail[i]));
                }
            }
        }
    }
}

/// A text has one sentence for each of its terminators, and one more exactly
/// if a letter or digit follows the last of them. So it never has more
/// sentences than terminators and one.
pub proof fn lemma_sentence_count(s: Seq<char>)
    ensures
        sentences_of(s).len() == terminators(s) + if has_opening(unterminated_tail(s)) {
            1nat
        } else {
            0nat
        },
        sentences_of(s).len() <= terminators(s) + 1,
{
    lemma_scan_summary(s);
}

/// Text that ends inside a sentence still gives that sentence: where a letter
/// or digit follows the last terminator, the last sentence is made of the
/// text behind that terminator.
pub proof fn lemma_trailing_sentence(s: Seq<char>)
    requires
        has_opening(unterminated_tail(s)),
    ensures
        sentences_of(s).len() == terminators(s) + 1,
        sentences_of(s).last().text == normalize(unterminated_tail(s)),
{
    lemma_scan_summary(s);
}

/// The line of a trailing sentence: where the character at `i` of the
/// unterminated tail is the first in it to open a sentence, the last sentence
/// begins on the line of that character, which is one more than the number of
/// newlines before it in the whole text.
pub proof fn lemma_trailing_sentence_line(s: Seq<char>, i: int)
    requires
        0 <= i < unterminated_tail(s).len(),
        opens_sentence(unterminated_tail(s)[i]),
        forall|j: int| 0 <= j < i ==> !opens_sentence(#[trigger] unterminated_tail(s)[j]),
    ensures
        sentences_of(s).len() > 0,
        sentences_of(s).last().line_number == 1 + newlines(
            s.take(s.len() - unterminated_tail(s).len() + i),
        ),
    decreases s.len(),
{
    let init = s.drop_last();
    let tail = unterminated_tail(init);
    lemma_scan_summary(s);
    lemma_scan_summary(init);
    lemma_unterminated_tail_is_suffix(s);
    lemma_unterminated_tail_is_suffix(init);
    let place = s.len() - unterminated_tail(s).len() + i;
    if i < tail.len() {
        assert(unterminated_tail(s)[i] == tail[i]);
        assert forall|j: int| 0 <= j < i implies !opens_sentence(#[trigger] tail[j]) by {
            assert(unterminated_tail(s)[j] == tail[j]);
        }
        lemma_trailing_sentence_line(init, i);
        assert(s.take(place) =~= init.take(place));
    } else {
        if has_opening(tail) {
            let j = choose|j: int| 0 <= j < tail.len() && opens_sentence(#[trigger] tail[j]);
            assert(unterminated_tail(s)[j] == tail[j]);
        }
        assert(s.take(place) =~= init);
    }
}

/// Line numbers count from 1, never pass the last line of the text, and
/// never fall from one sentence to the next.
pub proof fn lemma_line_numbers(s: Seq<char>)
    ensures
        forall|k: int|
            0 <= k < sentences_of(s).len() ==> 1 <= (#[trigger] sentences_of(s)[k]).line_number
                <= 1 + newlines(s),
        forall|j: int, k: int|
            0 <= j <= k < sentences_of(s).len() ==> sentences_of(s)[j].line_number
                <= sentences_of(s)[k].line_number,
{
    lemma_scan_lines(s);
    lemma_scan_summary(s);
}

/// The lines that the scan carries: the start line is between 1 and the
/// current line, and the closed sentences have line numbers that begin at 1,
/// never fall, and never pass the start line.
proof fn lemma_scan_lines(s: Seq<char>)
    ensures
        1 <= scan(s).start_line <= scan(s).line,
        forall|k: int|
            0 <= k < scan(s).emitted.len() ==> 1 <= (#[trigger] scan(s).emitted[k]).line_number
                <= scan(s).start_line,
        forall|j: int, k: int|
            0 <= j <= k < scan(s).emitted.len() ==> scan(s).emitted[j].line_number <= scan(
                s,
            ).emitted[k].line_number,
    decreases s.len(),
{
    if s.len() > 0 {
        lemma_scan_lines(s.drop_last());
    }
}

/// Text without a terminator and without a letter or digit has no sentence.
/// The empty text is such a text.
pub proof fn lemma_nothing_to_report(s: Seq<char>)
    requires
        forall|i: int| 0 <= i < s.len() ==> !is_terminator(#[trigger] s[i]) && !opens_sentence(s[i]),
    ensures
        sentences_of(s) == Seq::<SentenceView>::empty(),
    decreases s.len(),
{
    if s.len() > 0 {
        let init = s.drop_last();
        assert forall|i: int| 0 <= i < init.len() implies !is_terminator(#[trigger] init[i])
            && !opens_sentence(init[i]) by {
            assert(init[i] == s[i]);
        }
        lemma_nothing_to_report(init);
        assert(!is_terminator(s[s.len() - 1]) && !opens_sentence(s[s.len() - 1]));
    }
}

/// No sentence has an empty text, provided that no terminator and no letter
/// or digit of the input is whitespace. The classes of characters are named
/// in this crate and not defined, so that they do not overlap is a condition
/// here and not a known fact.
pub proof fn lemma_texts_not_empty(s: Seq<char>)
    requires
        forall|i: int|
            0 <= i < s.len() && (is_terminator(#[trigger] s[i]) || opens_sentence(s[i]))
                ==> !char_is_whitespace(s[i]),
    ensures
        forall|k: int| 0 <= k < sentences_of(s).len() ==> (#[trigger] sentences_of(s)[k]).text.len() > 0,
{
    lemma_scan_texts(s);
    lemma_scan_summary(s);
    lemma_unterminated_tail_is_suffix(s);
    let tail = unterminated_tail(s);
    if has_opening(tail) {
        let i = choose|i: int| 0 <= i < tail.len() && opens_sentence(#[trigger] tail[i]);
        assert(tail[i] == s[s.len() - tail.len() + i]);
        lemma_normalize_not_empty(tail, i);
    }
}

/// Under the condition of `lemma_texts_not_empty`, no sentence that the scan
/// has closed has an empty text.
proof fn lemma_scan_texts(s: Seq<char>)
    requires
        forall|i: int|
            0 <= i < s.len() && (is_terminator(#[trigger] s[i]) || opens_sentence(s[i]))
                ==> !char_is_whitespace(s[i]),
    ensures
        forall|k: int|
            0 <= k < scan(s).emitted.len() ==> (#[trigger] scan(s).emitted[k]).text.len() > 0,
    decreases s.len(),
{
    if s.len() > 0 {
        let init = s.drop_last();
        assert forall|i: int|
            0 <= i < init.len() && (is_terminator(#[trigger] init[i]) || opens_sentence(
                init[i],
            )) implies !char_is_whitespace(init[i]) by {
            assert(init[i] == s[i]);
        }
        lemma_scan_texts(init);
        if is_terminator(s.last()) {
            let closed = scan(init).buffer.push(s.last());
            assert(s[s.len() - 1] == s.last());
            lemma_normalize_not_empty(closed, closed.len() - 1);
        }
    }
}

/// A text has no more characters than its encoding has bytes.
proof fn lemma_encoding_length(s: Seq<char>)
    ensures
        s.len() <= encode_utf8(s).len(),
    decreases s.len(),
{
    if s.len() > 0 {
        lemma_encoding_length(s.drop_first());
    }
}

/// Parses the input into `Sentence`s.
pub fn into_sentences(input: &str) -> (sentences: Vec<Sentence>)
    ensures
        sentences.deep_view() == sentences_of(input@),
        sentences.len() == sentences_of(input@).len(),
        forall|k: int| 0 <= k < sentences.len() ==> (#[trigger] sentences[k]).well_formed(),
{
    let mut sentences: Vec<Sentence> = Vec::new();

    // Newlines are counted from 0, so that the count never exceeds the number
    // of characters read; the line of the next character is one more.
    let mut newlines: usize = 0;
    let mut sentence_line_number: usize = 1;

    let mut sentence_text = String::new();
    let mut state = SentenceState::NotInSentence;

    let bytes = input.as_bytes();
    proof {
        lemma_encoding_length(input@);
        assert(bytes@.len() == bytes.len());
    }

    for ch in it: input.chars()
        invariant
            it.seq() == input@,
            input@.len() <= usize::MAX,
            sentences.deep_view() == scan(input@.take(it.index() as int)).emitted,
            sentence_text@ == scan(input@.take(it.index() as int)).buffer,
            newlines + 1 == scan(input@.take(it.index() as int)).line,
            sentence_line_number == scan(input@.take(it.index() as int)).start_line,
            state == scan(input@.take(it.index() as int)).state,
            newlines <= it.index(),
            sentence_line_number >= 1,
            forall|k: int| 0 <= k < sentences.len() ==> (#[trigger] sentences[k]).well_formed(),
    {
        let ghost emitted = sentences.deep_view();
        proof {
            assert(input@.take(it.index() + 1).drop_last() =~= input@.take(it.index() as int));
        }
        sentence_text.push(ch);

        if ch == '.' || ch == '?' || ch == '!' {
            let text = normalize_sentence(sentence_text.as_str());
            sentences.push(Sentence::new(sentence_line_number, text));
            assert(sentences.deep_view() =~= emitted.push(
                SentenceView { line_number: sentence_line_number as nat, text: text@ },
            ));

            sentence_text = String::new();
            state = SentenceState::NotInSentence;
        } else if ch == '\n' {
            newlines += 1;
        } else if ch.is_alphanumeric() {
            if state == SentenceState::NotInSentence {
                sentence_line_number = newlines + 1;
                state = SentenceState::InSentence;
            }
        }
    }
    assert(input@.take(input@.len() as int) =~= input@);

    // If the last sentence did not end with a terminator, add it.
    if state == SentenceState::InSentence {
        let ghost emitted = sentences.deep_view();
        let text = normalize_sentence(sentence_text.as_str());
        sentences.push(Sentence::new(sentence_line_number, text));
        assert(sentences.deep_view() =~= emitted.push(
            SentenceView { line_number: sentence_line_number as nat, text: text@ },
        ));
    }
    assert(sentences.deep_view().len() == sentences.len());
    sentences
}

} // verus!
