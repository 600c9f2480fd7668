//! A tokenization-only pass: turns a source text into lines of classified
//! words without validating grammar, labels or operand shapes.
//!
//! This is the assembler's front half on its own, useful for inspecting how
//! a text tokenizes.  Each produced line is the raw word sequence ended by
//! a newline; the word flushed at the end of the input stays in the working
//! state and is not part of the finished value.

use crate::errors::{ErrorKindV, SyntaxErrorKind};
use crate::word::{
    spec_builder_new, spec_eof_word, spec_step, word_views, BuilderV, StepV, Word, WordBuilder,
    WordRequest, WordV,
};
use vstd::prelude::*;

verus! {

/// The mathematical mirror of the pre-processing state.
pub ghost struct PreV {
    pub builder: BuilderV,
    pub current: Seq<WordV>,
    pub lines: Seq<Seq<WordV>>,
}

/// The initial pre-processing state.
pub open spec fn spec_pre_new() -> PreV {
    PreV { builder: spec_builder_new(), current: Seq::empty(), lines: Seq::empty() }
}

/// One character of pre-processing: feed the tokenizer; a finished word
/// joins the current line, and a newline also finishes the line.
pub open spec fn spec_pre_consume(st: PreV, c: char) -> Result<PreV, ErrorKindV> {
    match spec_step(st.builder, c) {
        Err(e) => Err(e),
        Ok((b2, step)) => match step {
            StepV::Continue => Ok(PreV { builder: b2, current: st.current, lines: st.lines }),
            StepV::PushWord(w) => Ok(
                PreV { builder: b2, current: st.current.push(w), lines: st.lines },
            ),
            StepV::PushLine(w) => Ok(
                PreV {
                    builder: b2,
                    current: Seq::empty(),
                    lines: st.lines.push(st.current.push(w)),
                },
            ),
        },
    }
}

/// Runs the pre-processor over the characters of `text` from position `i`.
pub open spec fn spec_pre_run(st: PreV, text: Seq<char>, i: int) -> Result<PreV, ErrorKindV>
    decreases text.len() - i,
{
    if i < 0 || i >= text.len() {
        Ok(st)
    } else {
        match spec_pre_consume(st, text[i]) {
            Err(e) => Err(e),
            Ok(st2) => spec_pre_run(st2, text, i + 1),
        }
    }
}

/// The lines an input tokenizes into: empty input is rejected, every
/// character is consumed, and the final word must flush cleanly.
pub open spec fn spec_pre_process(text: Seq<char>) -> Result<Seq<Seq<WordV>>, ErrorKindV> {
    if text.len() == 0 {
        Err(ErrorKindV::EmptyText)
    } else {
        match spec_pre_run(spec_pre_new(), text, 0) {
            Err(e) => Err(e),
            Ok(st) => match spec_eof_word(st.builder) {
                Err(e) => Err(e),
                Ok(_) => Ok(st.lines),
            },
        }
    }
}

/// The finished tokenization: each element is the words of one source line.
#[derive(Debug)]
pub struct PreProcessing {
    instructions: Vec<Vec<Word>>,
}

impl View for PreProcessing {
    type V = Seq<Seq<WordV>>;

    closed spec fn view(&self) -> Seq<Seq<WordV>> {
        self.instructions@.map_values(|l: Vec<Word>| word_views(l@))
    }
}

impl PreProcessing {
    /// The tokenized lines.
    pub fn lines(&self) -> (r: &Vec<Vec<Word>>)
        ensures
            r@.map_values(|l: Vec<Word>| word_views(l@)) == self@,
    {
        &self.instructions
    }
}

/// The working state of the pre-processor.
pub struct PreProcessingCash {
    /// The word under construction.
    word_builder: WordBuilder,
    /// The words of the line under construction.
    current_line: Vec<Word>,
    /// The finished lines.
    instructions: Vec<Vec<Word>>,
}

impl View for PreProcessingCash {
    type V = PreV;

    closed spec fn view(&self) -> PreV {
        PreV {
            builder: self.word_builder@,
            current: word_views(self.current_line@),
            lines: self.instructions@.map_values(|l: Vec<Word>| word_views(l@)),
        }
    }
}

impl PreProcessingCash {
    /// A fresh pre-processor.
    pub fn new() -> (r: Result<PreProcessingCash, SyntaxErrorKind>)
        ensures
            r matches Ok(p) && p@ == spec_pre_new(),
    {
        let word_builder = match WordBuilder::new() {
            Ok(b) => b,
            Err(e) => {
                return Err(e);
            },
        };
        let p = PreProcessingCash { word_builder, current_line: Vec::new(), instructions: Vec::new() };
        proof {
            assert(word_views(p.current_line@) =~= Seq::<WordV>::empty());
            assert(p.instructions@.map_values(|l: Vec<Word>| word_views(l@)) =~= Seq::<
                Seq<WordV>,
            >::empty());
        }
        Ok(p)
    }

    /// Feeds one character of source text.
    pub fn consume(&mut self, c: char) -> (r: Result<(), SyntaxErrorKind>)
        ensures
            match spec_pre_consume(old(self)@, c) {
                Ok(st) => r is Ok && final(self)@ == st,
                Err(e) => r matches Err(err) && err@ == e,
            },
    {
        match self.word_builder.add_char(c) {
            Err(e) => Err(e),
            Ok(WordRequest::Continue) => Ok(()),
            Ok(WordRequest::PushWord(word)) => {
                proof {
                    assert(word_views(self.current_line@.push(word)) =~= word_views(
                        self.current_line@,
                    ).push(word@));
                }
                self.current_line.push(word);
                Ok(())
            },
            Ok(WordRequest::PushLine(word)) => {
                proof {
                    assert(word_views(self.current_line@.push(word)) =~= word_views(
                        self.current_line@,
                    ).push(word@));
                }
                self.current_line.push(word);
                let mut taken: Vec<Word> = Vec::new();
                core::mem::swap(&mut taken, &mut self.current_line);
                proof {
                    assert(self.instructions@.push(taken).map_values(
                        |l: Vec<Word>| word_views(l@),
                    ) =~= self.instructions@.map_values(|l: Vec<Word>| word_views(l@)).push(
                        word_views(taken@),
                    ));
                    assert(word_views(self.current_line@) =~= Seq::<WordV>::empty());
                }
                self.instructions.push(taken);
                Ok(())
            },
        }
    }

    /// Flushes the final word at the end of the input into the current
    /// line.
    pub fn end_of_file(&mut self) -> (r: Result<(), SyntaxErrorKind>)
        ensures
            match spec_eof_word(old(self)@.builder) {
                Ok(w) => r is Ok && final(self)@.current == old(self)@.current.push(w)
                    && final(self)@.lines == old(self)@.lines,
                Err(e) => r matches Err(err) && err@ == e,
            },
    {
        let word = match self.word_builder.end_of_file() {
            Ok(w) => w,
            Err(e) => {
                return Err(e);
            },
        };
        proof {
            assert(word_views(self.current_line@.push(word)) =~= word_views(
                self.current_line@,
            ).push(word@));
        }
        self.current_line.push(word);
        Ok(())
    }
}

/// Tokenizes a source text into lines of classified words.
#[verifier::loop_isolation(false)]
pub fn pre_processing(text: &Vec<char>) -> (r: Result<PreProcessing, SyntaxErrorKind>)
    ensures
        match r {
            Ok(p) => spec_pre_process(text@) == Result::<Seq<Seq<WordV>>, ErrorKindV>::Ok(p@),
            Err(e) => spec_pre_process(text@) == Result::<Seq<Seq<WordV>>, ErrorKindV>::Err(e@),
        },
{
    if text.len() == 0 {
        return Err(SyntaxErrorKind::EmptyText);
    }
    let mut pre_processor = match PreProcessingCash::new() {
        Ok(p) => p,
        Err(e) => {
            return Err(e);
        },
    };
    let mut i: usize = 0;
    while i < text.len()
        invariant
            0 <= i <= text@.len(),
            spec_pre_run(spec_pre_new(), text@, 0) == spec_pre_run(pre_processor@, text@, i as int),
        decreases text@.len() - i,
    {
        match pre_processor.consume(text[i]) {
            Ok(u) => u,
            Err(e) => {
                return Err(e);
            },
        };
        i = i + 1;
    }
    match pre_processor.end_of_file() {
        Ok(u) => u,
        Err(e) => {
            return Err(e);
        },
    };
    let PreProcessingCash { word_builder: _, current_line: _, instructions } = pre_processor;
    Ok(PreProcessing { instructions })
}

} // verus!
