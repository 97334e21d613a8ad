//! The report: one line for each sticky sentence.

use crate::decimal::{decimal, push_decimal};
use crate::glue::{glue_ratio, glue_words_percentage};
use crate::sentence::{Sentence, SentenceView};
use vstd::prelude::*;
use vstd::string::StringExecFns;

verus! {

/// Whether more than half of the words of a text are glue words.
pub open spec fn is_sticky(text: Seq<char>) -> bool {
    glue_ratio(text) > 50
}

/// The line that reports a sentence: the word `Line` and the line number, the
/// sentence written out, and its percentage of glue words in brackets.
pub open spec fn report_line(sentence: SentenceView) -> Seq<char> {
    "Line "@ + decimal(sentence.line_number) + ": "@ + sentence.display() + " ("@ + decimal(
        glue_ratio(sentence.text) as nat,
    ) + "%)"@
}

/// The lines of the report: one for each sticky sentence, in the order of the
/// sentences.
pub open spec fn report_lines(sentences: Seq<SentenceView>) -> Seq<Seq<char>> {
    sentences.filter(|s: SentenceView| is_sticky(s.text)).map_values(
        |s: SentenceView| report_line(s),
    )
}

/// Writes the line that reports the sentence.
pub fn sticky_line(sentence: &Sentence) -> (line: String)
    ensures
        line@ == report_line(sentence@),
{
    let percentage = glue_words_percentage(sentence.text.as_str());
    let written = sentence.display();
    let mut line = String::new();
    line.append("Line ");
    push_decimal(&mut line, sentence.line_number as u64);
    line.append(": ");
    line.append(written.as_str());
    line.append(" (");
    push_decimal(&mut line, percentage as u64);
    line.append("%)");
    assert(line@ =~= report_line(sentence@));
    line
}

/// Writes the report: a line for each sentence that is sticky. There are as
/// many sticky sentences as lines.
pub fn sticky_lines(sentences: &Vec<Sentence>) -> (lines: Vec<String>)
    ensures
        lines.deep_view() == report_lines(sentences.deep_view()),
{
    let ghost sticky = |s: SentenceView| is_sticky(s.text);
    let ghost line = |s: SentenceView| report_line(s);
    let mut lines: Vec<String> = Vec::new();
    proof {
        reveal(Seq::filter);
        assert(lines.deep_view() =~= sentences.deep_view().take(0).filter(sticky).map_values(line));
    }
    for i in 0..sentences.len()
        invariant
            sticky == (|s: SentenceView| is_sticky(s.text)),
            line == (|s: SentenceView| report_line(s)),
            lines.deep_view() == sentences.deep_view().take(i as int).filter(sticky).map_values(
                line,
            ),
    {
        let ghost written = lines.deep_view();
        let ghost seen = sentences.deep_view().take(i as int);
        if sentences[i].is_sticky() {
            lines.push(sticky_line(&sentences[i]));
        }
        proof {
            seen.lemma_filter_push(sentences[i as int]@, sticky);
            assert(sentences.deep_view().take(i + 1) =~= seen.push(sentences[i as int]@));
            if is_sticky(sentences[i as int]@.text) {
                assert(lines.deep_view() =~= written.push(report_line(sentences[i as int]@)));
                assert(seen.filter(sticky).push(sentences[i as int]@).map_values(line)
                    =~= written.push(report_line(sentences[i as int]@)));
            }
        }
    }
    assert(sentences.deep_view().take(sentences.len() as int) =~= sentences.deep_view());
    lines
}

} // verus!
