//! The assembler driver: feeds characters to the tokenizer, collects
//! validated lines and the label table, resolves label addresses in a
//! second pass, and emits the binary.
//!
//! The output is a 4-byte big-endian header holding the byte address of the
//! label `main`, followed by each line's encoding in order.

use crate::errors::{ErrorKindV, ErrorV, SyntaxError, SyntaxErrorKind};
use crate::labels::LabelTable;
use crate::line::{
    spec_be32, spec_decl_labels, spec_encode_line, spec_line_extract, spec_line_labels_present,
    spec_line_shape, spec_line_size, spec_strs_nul, be32_bytes, Line,
};
use crate::word::{
    copy_chars, lemma_eof_strs_nul, lemma_step_strs_nul, spec_builder_new, spec_eof_word,
    spec_step, word_views, BuilderV, ContentV, StepV, Word, WordBuilder, WordRequest, WordV,
};
use vstd::prelude::*;

verus! {

/// The name the entry point must be declared under.
pub open spec fn spec_main_name() -> Seq<char> {
    seq!['m', 'a', 'i', 'n']
}

/// The mathematical mirror of the assembler state.
pub ghost struct AsmV {
    /// The tokenizer state.
    pub builder: BuilderV,
    /// The words of the line being gathered.
    pub current: Seq<WordV>,
    /// The validated lines, in order.
    pub lines: Seq<Seq<WordV>>,
    /// The label table; line indices during the first pass, byte addresses
    /// after resolution.
    pub labels: Map<Seq<char>, u64>,
}

/// The initial assembler state.
pub open spec fn spec_asm_new() -> AsmV {
    AsmV {
        builder: spec_builder_new(),
        current: Seq::empty(),
        lines: Seq::empty(),
        labels: Map::empty(),
    }
}

/// Appends a finished word to the current line; a label declaration is also
/// recorded in the table, mapped to the current line index, and a duplicate
/// name fails on the line of its second occurrence.
pub open spec fn spec_asm_push_word(st: AsmV, w: WordV) -> Result<AsmV, ErrorV> {
    if w.content is LabelDeclaration {
        let name = w.content->LabelDeclaration_0;
        if st.labels.contains_key(name) {
            Err(ErrorV { line: st.lines.len() + 1int, err: ErrorKindV::LabelDeclaredTwice(name) })
        } else {
            Ok(
                AsmV {
                    builder: st.builder,
                    current: st.current.push(w),
                    lines: st.lines,
                    labels: st.labels.insert(name, st.lines.len() as u64),
                },
            )
        }
    } else {
        Ok(
            AsmV {
                builder: st.builder,
                current: st.current.push(w),
                lines: st.lines,
                labels: st.labels,
            },
        )
    }
}

/// Validates the gathered words as one line and starts the next.
pub open spec fn spec_asm_push_line(st: AsmV) -> Result<AsmV, ErrorV> {
    match spec_line_extract(st.current) {
        Ok(l) => Ok(
            AsmV {
                builder: st.builder,
                current: Seq::empty(),
                lines: st.lines.push(l),
                labels: st.labels,
            },
        ),
        Err(e) => Err(ErrorV { line: st.lines.len() + 1int, err: e }),
    }
}

/// One character of assembly: feed the tokenizer, then act on its request.
pub open spec fn spec_asm_consume(st: AsmV, c: char) -> Result<AsmV, ErrorV> {
    match spec_step(st.builder, c) {
        Err(e) => Err(ErrorV { line: st.lines.len() + 1int, err: e }),
        Ok((b2, step)) => {
            let st1 = AsmV { builder: b2, current: st.current, lines: st.lines, labels: st.labels };
            match step {
                StepV::Continue => Ok(st1),
                StepV::PushWord(w) => spec_asm_push_word(st1, w),
                StepV::PushLine(w) => match spec_asm_push_word(st1, w) {
                    Err(e) => Err(e),
                    Ok(st2) => spec_asm_push_line(st2),
                },
            }
        },
    }
}

/// Runs the assembler over the characters of `text` from position `i`.
pub open spec fn spec_asm_run(st: AsmV, text: Seq<char>, i: int) -> Result<AsmV, ErrorV>
    decreases text.len() - i,
{
    if i < 0 || i >= text.len() {
        Ok(st)
    } else {
        match spec_asm_consume(st, text[i]) {
            Err(e) => Err(e),
            Ok(st2) => spec_asm_run(st2, text, i + 1),
        }
    }
}

/// The first undeclared label reference of a line, scanning from `j`.
pub open spec fn spec_undeclared_in_line(
    ws: Seq<WordV>,
    labels: Map<Seq<char>, u64>,
    j: int,
) -> Option<Seq<char>>
    decreases ws.len() - j,
{
    if j < 0 || j >= ws.len() {
        None
    } else if ws[j].content is Label && !labels.contains_key(ws[j].content->Label_0) {
        Some(ws[j].content->Label_0)
    } else {
        spec_undeclared_in_line(ws, labels, j + 1)
    }
}

/// The first undeclared label reference of the program, scanning the lines
/// from `i`: the line index and the name.
pub open spec fn spec_find_undeclared(
    lines: Seq<Seq<WordV>>,
    labels: Map<Seq<char>, u64>,
    i: int,
) -> Option<(int, Seq<char>)>
    decreases lines.len() - i,
{
    if i < 0 || i >= lines.len() {
        None
    } else {
        match spec_undeclared_in_line(lines[i], labels, 0) {
            Some(n) => Some((i, n)),
            None => spec_find_undeclared(lines, labels, i + 1),
        }
    }
}

/// Binds each of `names` to `addr`, in order.
pub open spec fn spec_insert_names(
    m: Map<Seq<char>, u64>,
    names: Seq<Seq<char>>,
    addr: u64,
    k: int,
) -> Map<Seq<char>, u64>
    decreases names.len() - k,
{
    if k < 0 || k >= names.len() {
        m
    } else {
        spec_insert_names(m.insert(names[k], addr), names, addr, k + 1)
    }
}

/// The second pass: walks the lines in order, binds each declared label to
/// the running byte address, and advances the address by the line's size.
/// The running address wraps like the 64-bit counter that computes it.
pub open spec fn spec_resolve_from(
    lines: Seq<Seq<WordV>>,
    labels: Map<Seq<char>, u64>,
    i: int,
    addr: u64,
) -> Map<Seq<char>, u64>
    decreases lines.len() - i,
{
    if i < 0 || i >= lines.len() {
        labels
    } else {
        let labels2 = spec_insert_names(labels, spec_decl_labels(lines[i]), addr, 0);
        let next = vstd::wrapping::u64_specs::wrapping_add(
            addr,
            spec_line_size(lines[i]) as u64,
        );
        spec_resolve_from(lines, labels2, i + 1, next)
    }
}

/// The resolved label table of a program.
pub open spec fn spec_resolve(lines: Seq<Seq<WordV>>, labels: Map<Seq<char>, u64>) -> Map<
    Seq<char>,
    u64,
> {
    spec_resolve_from(lines, labels, 0, 0)
}

/// The bytes the lines from `i` on contribute to the output.
pub open spec fn spec_emit_lines(
    lines: Seq<Seq<WordV>>,
    labels: Map<Seq<char>, u64>,
    i: int,
) -> Seq<u8>
    decreases lines.len() - i,
{
    if i < 0 || i >= lines.len() {
        Seq::empty()
    } else {
        spec_encode_line(lines[i], labels) + spec_emit_lines(lines, labels, i + 1)
    }
}

/// The whole output: the big-endian address of `main` as the header, then
/// each line's encoding in order.
pub open spec fn spec_generate(st: AsmV) -> Seq<u8> {
    spec_be32((st.labels[spec_main_name()]) as u32) + spec_emit_lines(st.lines, st.labels, 0)
}

/// The final phase, after the input is exhausted: require a `main` label,
/// flush the tokenizer, validate the gathered words as the last line, check
/// every label reference, and resolve label addresses.  The tokenizer
/// component of the result is not meaningful afterwards.
pub open spec fn spec_conclude(st: AsmV) -> Result<AsmV, ErrorV> {
    if !st.labels.contains_key(spec_main_name()) {
        Err(ErrorV { line: 0, err: ErrorKindV::NoMain })
    } else {
        match spec_eof_word(st.builder) {
            Err(e) => Err(ErrorV { line: st.lines.len() + 1int, err: e }),
            Ok(w) => match spec_line_extract(st.current.push(w)) {
                Err(e) => Err(ErrorV { line: st.lines.len() + 1int, err: e }),
                Ok(l) => {
                    let lines2 = st.lines.push(l);
                    match spec_find_undeclared(lines2, st.labels, 0) {
                        Some(p) => Err(
                            ErrorV { line: p.0 + 1, err: ErrorKindV::LabelIsNotDeclared(p.1) },
                        ),
                        None => Ok(
                            AsmV {
                                builder: st.builder,
                                current: Seq::empty(),
                                lines: lines2,
                                labels: spec_resolve(lines2, st.labels),
                            },
                        ),
                    }
                },
            },
        }
    }
}

/// The whole assembly of a source text: empty input is rejected, every
/// character is consumed in order, and the concluded program is emitted.
pub open spec fn spec_assemble(text: Seq<char>) -> Result<Seq<u8>, ErrorV> {
    if text.len() == 0 {
        Err(ErrorV { line: 0, err: ErrorKindV::EmptyText })
    } else {
        match spec_asm_run(spec_asm_new(), text, 0) {
            Err(e) => Err(e),
            Ok(st) => match spec_conclude(st) {
                Err(e) => Err(e),
                Ok(st2) => Ok(spec_generate(st2)),
            },
        }
    }
}

/// The invariant the driver keeps: every finished line has the validated
/// shape and NUL-terminated strings, and so do the gathered words.
pub open spec fn spec_asm_wf(st: AsmV) -> bool {
    &&& spec_strs_nul(st.current)
    &&& forall|i: int|
        0 <= i < st.lines.len() ==> spec_line_shape(#[trigger] st.lines[i]) && spec_strs_nul(
            st.lines[i],
        )
}

} // verus!

verus! {

/// The views of a sequence of lines.
pub open spec fn line_views(s: Seq<Line>) -> Seq<Seq<WordV>> {
    s.map_values(|l: Line| l@)
}

/// The assembler: the tokenizer, the line being gathered, the finished
/// lines, and the label table.
pub struct Assembler {
    /// The word under construction.
    word_builder: WordBuilder,
    /// The words of the line under construction.
    current_line: Vec<Word>,
    /// The validated lines, in order.
    instructions: Vec<Line>,
    /// Links each label to its value; also used to detect duplicate
    /// declarations while parsing.
    labels: LabelTable,
}

impl View for Assembler {
    type V = AsmV;

    closed spec fn view(&self) -> AsmV {
        AsmV {
            builder: self.word_builder@,
            current: word_views(self.current_line@),
            lines: line_views(self.instructions@),
            labels: self.labels@,
        }
    }
}

/// The entry-point label name.
fn main_key() -> (r: Vec<char>)
    ensures
        r@ == spec_main_name(),
{
    let mut r: Vec<char> = Vec::new();
    r.push('m');
    r.push('a');
    r.push('i');
    r.push('n');
    proof {
        assert(r@ =~= spec_main_name());
    }
    r
}

impl Assembler {
    /// A fresh assembler.
    pub fn new() -> (r: Result<Assembler, SyntaxError>)
        ensures
            r matches Ok(a) && a@ == spec_asm_new() && spec_asm_wf(a@),
    {
        let word_builder = match WordBuilder::new() {
            Ok(b) => b,
            Err(err) => {
                return Err(SyntaxError { line: 0, err });
            },
        };
        let a = Assembler {
            word_builder,
            current_line: Vec::new(),
            instructions: Vec::new(),
            labels: LabelTable::new(),
        };
        proof {
            assert(word_views(a.current_line@) =~= Seq::<WordV>::empty());
            assert(line_views(a.instructions@) =~= Seq::<Seq<WordV>>::empty());
        }
        Ok(a)
    }

    /// The 1-based number of the line being gathered, used to attribute
    /// errors.
    fn line(&self) -> (r: usize)
        requires
            self@.lines.len() + 1 <= usize::MAX,
        ensures
            r == self@.lines.len() + 1,
    {
        self.instructions.len() + 1
    }

    /// Appends a finished word to the current line, recording a label
    /// declaration in the table and rejecting a duplicate name.
    fn push_word(&mut self, word: Word) -> (r: Result<(), SyntaxError>)
        requires
            old(self)@.lines.len() + 1 <= usize::MAX,
        ensures
            match spec_asm_push_word(old(self)@, word@) {
                Ok(st) => r is Ok && final(self)@ == st,
                Err(e) => r matches Err(err) && err@ == e,
            },
    {
        let line = self.line();
        match &word.content {
            crate::word::WordContent::LabelDeclaration(lab) => {
                let key = copy_chars(lab);
                if self.labels.contains(&key) {
                    return Err(
                        SyntaxError { line, err: SyntaxErrorKind::LabelDeclaredTwice(key) },
                    );
                }
                self.labels.insert(key, self.instructions.len() as u64);
            },
            _ => {},
        }
        proof {
            assert(word_views(self.current_line@.push(word)) =~= word_views(
                self.current_line@,
            ).push(word@));
        }
        self.current_line.push(word);
        Ok(())
    }

    /// Validates the gathered words as one line and starts the next.
    fn push_current_line(&mut self) -> (r: Result<(), SyntaxError>)
        requires
            old(self)@.lines.len() + 1 <= usize::MAX,
            spec_strs_nul(old(self)@.current),
        ensures
            match spec_asm_push_line(old(self)@) {
                Ok(st) => r is Ok && final(self)@ == st && (spec_asm_wf(old(self)@) ==> spec_asm_wf(
                    final(self)@,
                )),
                Err(e) => r matches Err(err) && err@ == e,
            },
    {
        let line = self.line();
        let mut taken: Vec<Word> = Vec::new();
        core::mem::swap(&mut taken, &mut self.current_line);
        match Line::from_words(taken) {
            Ok(l) => {
                proof {
                    assert(line_views(self.instructions@.push(l)) =~= line_views(
                        self.instructions@,
                    ).push(l@));
                    assert(word_views(self.current_line@) =~= Seq::<WordV>::empty());
                }
                self.instructions.push(l);
                Ok(())
            },
            Err(err) => Err(SyntaxError { line, err }),
        }
    }

    /// Feeds one character of source text to the assembler.
    pub fn consume(&mut self, c: char) -> (r: Result<(), SyntaxError>)
        requires
            old(self)@.lines.len() + 1 <= usize::MAX,
            spec_asm_wf(old(self)@),
        ensures
            match spec_asm_consume(old(self)@, c) {
                Ok(st) => r is Ok && final(self)@ == st && spec_asm_wf(final(self)@),
                Err(e) => r matches Err(err) && err@ == e,
            },
    {
        proof {
            lemma_step_strs_nul(old(self)@.builder, c);
        }
        let line = self.line();
        match self.word_builder.add_char(c) {
            Err(err) => Err(SyntaxError { line, err }),
            Ok(WordRequest::Continue) => Ok(()),
            Ok(WordRequest::PushWord(word)) => {
                proof {
                    assert(spec_strs_nul(self@.current.push(word@)));
                }
                self.push_word(word)
            },
            Ok(WordRequest::PushLine(word)) => {
                proof {
                    assert(spec_strs_nul(self@.current.push(word@)));
                }
                match self.push_word(word) {
                    Ok(u) => u,
                    Err(e) => {
                        return Err(e);
                    },
                };
                self.push_current_line()
            },
        }
    }
}

} // verus!

verus! {

/// One character of assembly grows the line count by at most one.
proof fn lemma_consume_lines_grow(st: AsmV, c: char)
    ensures
        spec_asm_consume(st, c) matches Ok(st2) ==> st2.lines.len() <= st.lines.len() + 1,
{
}

proof fn lemma_undeclared_none(ws: Seq<WordV>, labels: Map<Seq<char>, u64>, j: int)
    requires
        0 <= j <= ws.len(),
        spec_undeclared_in_line(ws, labels, j) is None,
    ensures
        forall|p: int|
            j <= p < ws.len() ==> ((#[trigger] ws[p].content) matches ContentV::Label(n)
                ==> labels.contains_key(n)),
    decreases ws.len() - j,
{
    if j < ws.len() {
        lemma_undeclared_none(ws, labels, j + 1);
    }
}

proof fn lemma_find_undeclared_none(lines: Seq<Seq<WordV>>, labels: Map<Seq<char>, u64>, i: int)
    requires
        0 <= i <= lines.len(),
        spec_find_undeclared(lines, labels, i) is None,
    ensures
        forall|k: int|
            i <= k < lines.len() ==> spec_line_labels_present(#[trigger] lines[k], labels),
    decreases lines.len() - i,
{
    if i < lines.len() {
        lemma_undeclared_none(lines[i], labels, 0);
        lemma_find_undeclared_none(lines, labels, i + 1);
    }
}

proof fn lemma_insert_names_contains(
    m: Map<Seq<char>, u64>,
    names: Seq<Seq<char>>,
    addr: u64,
    k: int,
    key: Seq<char>,
)
    requires
        m.contains_key(key),
    ensures
        spec_insert_names(m, names, addr, k).contains_key(key),
    decreases names.len() - k,
{
    if 0 <= k < names.len() {
        lemma_insert_names_contains(m.insert(names[k], addr), names, addr, k + 1, key);
    }
}

/// Resolution never removes a label binding.
proof fn lemma_resolve_contains(
    lines: Seq<Seq<WordV>>,
    labels: Map<Seq<char>, u64>,
    i: int,
    addr: u64,
    key: Seq<char>,
)
    requires
        labels.contains_key(key),
    ensures
        spec_resolve_from(lines, labels, i, addr).contains_key(key),
    decreases lines.len() - i,
{
    if 0 <= i < lines.len() {
        let labels2 = spec_insert_names(labels, spec_decl_labels(lines[i]), addr, 0);
        lemma_insert_names_contains(labels, spec_decl_labels(lines[i]), addr, 0, key);
        let next = vstd::wrapping::u64_specs::wrapping_add(addr, spec_line_size(lines[i]) as u64);
        lemma_resolve_contains(lines, labels2, i + 1, next, key);
    }
}

impl Assembler {
    /// Fails with the first reference to a label that was never declared,
    /// attributed to the referencing line.
    #[verifier::loop_isolation(false)]
    fn check_labels_validity(&self) -> (r: Result<(), SyntaxError>)
        ensures
            match spec_find_undeclared(self@.lines, self@.labels, 0) {
                None => r is Ok,
                Some(p) => r matches Err(e) && e@ == (ErrorV {
                    line: p.0 + 1,
                    err: ErrorKindV::LabelIsNotDeclared(p.1),
                }),
            },
    {
        let ghost lines = self@.lines;
        proof {
            assert(forall|p: int|
                0 <= p < self.instructions@.len() ==> lines[p] == self.instructions@[p]@);
        }
        let mut i: usize = 0;
        while i < self.instructions.len()
            invariant
                0 <= i <= lines.len(),
                spec_find_undeclared(lines, self@.labels, 0) == spec_find_undeclared(
                    lines,
                    self@.labels,
                    i as int,
                ),
            decreases lines.len() - i,
        {
            let words = self.instructions[i].get();
            let ghost ws = lines[i as int];
            proof {
                assert(forall|p: int| 0 <= p < words@.len() ==> ws[p] == words@[p]@);
            }
            let mut j: usize = 0;
            while j < words.len()
                invariant
                    0 <= j <= ws.len(),
                    spec_undeclared_in_line(ws, self@.labels, 0) == spec_undeclared_in_line(
                        ws,
                        self@.labels,
                        j as int,
                    ),
                decreases ws.len() - j,
            {
                match &words[j].content {
                    crate::word::WordContent::Label(name) => {
                        if !self.labels.contains(name) {
                            return Err(
                                SyntaxError {
                                    line: i + 1,
                                    err: SyntaxErrorKind::LabelIsNotDeclared(copy_chars(name)),
                                },
                            );
                        }
                    },
                    _ => {},
                }
                j = j + 1;
            }
            i = i + 1;
        }
        Ok(())
    }

    /// Requires that a label named `main` was declared; the failure carries
    /// line 0, as every whole-file failure does.
    fn check_if_main_exists(&self) -> (r: Result<(), SyntaxError>)
        ensures
            self@.labels.contains_key(spec_main_name()) ==> r is Ok,
            !self@.labels.contains_key(spec_main_name()) ==> (r matches Err(e) && e@ == (ErrorV {
                line: 0,
                err: ErrorKindV::NoMain,
            })),
    {
        let key = main_key();
        if !self.labels.contains(&key) {
            Err(SyntaxError { line: 0, err: SyntaxErrorKind::NoMain })
        } else {
            Ok(())
        }
    }

    /// The second pass: binds every declared label to its byte address.
    #[verifier::loop_isolation(false)]
    fn correct_labels_addresses(&mut self)
        ensures
            final(self)@ == (AsmV {
                builder: old(self)@.builder,
                current: old(self)@.current,
                lines: old(self)@.lines,
                labels: spec_resolve(old(self)@.lines, old(self)@.labels),
            }),
    {
        let ghost lines = self@.lines;
        let ghost labels0 = self@.labels;
        proof {
            assert(forall|p: int|
                0 <= p < self.instructions@.len() ==> lines[p] == self.instructions@[p]@);
        }
        let mut addr: u64 = 0;
        let mut k: usize = 0;
        while k < self.instructions.len()
            invariant
                0 <= k <= lines.len(),
                self.word_builder == old(self).word_builder,
                self.current_line == old(self).current_line,
                self.instructions == old(self).instructions,
                spec_resolve_from(lines, self@.labels, k as int, addr) == spec_resolve(
                    lines,
                    labels0,
                ),
            decreases lines.len() - k,
        {
            let (names, size) = self.instructions[k].get_line_info();
            let ghost nv = crate::line::name_views(names@);
            let ghost lk = self@.labels;
            proof {
                assert(forall|p: int| 0 <= p < names@.len() ==> nv[p] == names@[p]@);
            }
            let mut m: usize = 0;
            while m < names.len()
                invariant
                    0 <= m <= nv.len(),
                    self.word_builder == old(self).word_builder,
                    self.current_line == old(self).current_line,
                    self.instructions == old(self).instructions,
                    spec_insert_names(self@.labels, nv, addr, m as int) == spec_insert_names(
                        lk,
                        nv,
                        addr,
                        0,
                    ),
                decreases nv.len() - m,
            {
                let key = copy_chars(&names[m]);
                self.labels.insert(key, addr);
                m = m + 1;
            }
            addr = addr.wrapping_add(size as u64);
            k = k + 1;
        }
    }

    /// Emits the binary: the 4-byte big-endian address of `main`, then each
    /// line's encoding in order.
    #[verifier::loop_isolation(false)]
    pub fn generate_binary(&self) -> (r: Vec<u8>)
        requires
            self@.labels.contains_key(spec_main_name()),
            forall|i: int| 0 <= i < self@.lines.len() ==> spec_line_shape(#[trigger] self@.lines[i]),
            forall|i: int|
                0 <= i < self@.lines.len() ==> spec_line_labels_present(
                    #[trigger] self@.lines[i],
                    self@.labels,
                ),
        ensures
            r@ == spec_generate(self@),
    {
        let ghost lines = self@.lines;
        proof {
            assert(forall|p: int|
                0 <= p < self.instructions@.len() ==> lines[p] == self.instructions@[p]@);
        }
        let key = main_key();
        let origin: u64 = match self.labels.get(&key) {
            Some(v) => v,
            None => {
                proof {
                    assert(false);
                }
                0
            },
        };
        let mut out = be32_bytes(#[verifier::truncate] (origin as u32));
        let mut k: usize = 0;
        while k < self.instructions.len()
            invariant
                0 <= k <= lines.len(),
                out@ + spec_emit_lines(lines, self@.labels, k as int) == spec_generate(self@),
            decreases lines.len() - k,
        {
            let mut bytes = self.instructions[k].get_binary_instruction(&self.labels);
            proof {
                assert((out@ + bytes@) + spec_emit_lines(lines, self@.labels, k + 1) =~= out@ + (
                bytes@ + spec_emit_lines(lines, self@.labels, k + 1)));
            }
            out.append(&mut bytes);
            k = k + 1;
        }
        proof {
            assert(out@ + spec_emit_lines(lines, self@.labels, lines.len() as int) =~= out@);
        }
        out
    }

    /// The final phase: require `main`, flush the tokenizer, validate the
    /// last line, check every label reference, resolve addresses.
    pub fn conclude(&mut self) -> (r: Result<(), SyntaxError>)
        requires
            old(self)@.lines.len() + 1 <= usize::MAX,
            spec_asm_wf(old(self)@),
        ensures
            match spec_conclude(old(self)@) {
                Ok(st) => r is Ok && final(self)@.current == st.current && final(self)@.lines
                    == st.lines && final(self)@.labels == st.labels && spec_asm_wf(final(self)@)
                    && final(self)@.labels.contains_key(spec_main_name()) && (forall|i: int|
                    0 <= i < final(self)@.lines.len() ==> spec_line_labels_present(
                        #[trigger] final(self)@.lines[i],
                        final(self)@.labels,
                    )),
                Err(e) => r matches Err(err) && err@ == e,
            },
    {
        match self.check_if_main_exists() {
            Ok(u) => u,
            Err(e) => {
                return Err(e);
            },
        };
        let line = self.line();
        let word = match self.word_builder.end_of_file() {
            Ok(w) => w,
            Err(err) => {
                return Err(SyntaxError { line, err });
            },
        };
        proof {
            lemma_eof_strs_nul(old(self)@.builder);
            assert(word_views(self.current_line@.push(word)) =~= word_views(
                self.current_line@,
            ).push(word@));
        }
        self.current_line.push(word);
        match self.push_current_line() {
            Ok(u) => u,
            Err(e) => {
                return Err(e);
            },
        };
        match self.check_labels_validity() {
            Ok(u) => u,
            Err(e) => {
                return Err(e);
            },
        };
        let ghost st3 = self@;
        self.correct_labels_addresses();
        proof {
            lemma_resolve_contains(st3.lines, st3.labels, 0, 0, spec_main_name());
            lemma_find_undeclared_none(st3.lines, st3.labels, 0);
            assert forall|i: int| 0 <= i < final(self)@.lines.len() implies
                spec_line_labels_present(#[trigger] final(self)@.lines[i], final(self)@.labels) by {
                assert(spec_line_labels_present(st3.lines[i], st3.labels));
                assert forall|j: int|
                    0 <= j < st3.lines[i].len() implies ((#[trigger] st3.lines[i][j].content)
                    matches ContentV::Label(n) ==> final(self)@.labels.contains_key(n)) by {
                    if st3.lines[i][j].content is Label {
                        let n = st3.lines[i][j].content->Label_0;
                        if st3.labels.contains_key(n) {
                            lemma_resolve_contains(st3.lines, st3.labels, 0, 0, n);
                        }
                    }
                }
            }
        }
        Ok(())
    }
}

/// Assembles a source text into the flat binary: the 4-byte big-endian
/// address of `main`, then the instruction stream.  On failure the error
/// carries the 1-based line it is attributed to; whole-file failures carry
/// line 0.
#[verifier::loop_isolation(false)]
pub fn assemble(text: &Vec<char>) -> (r: Result<Vec<u8>, SyntaxError>)
    requires
        text@.len() < usize::MAX,
    ensures
        match r {
            Ok(bytes) => spec_assemble(text@) == Result::<Seq<u8>, ErrorV>::Ok(bytes@),
            Err(e) => spec_assemble(text@) == Result::<Seq<u8>, ErrorV>::Err(e@),
        },
{
    if text.len() == 0 {
        return Err(SyntaxError { line: 0, err: SyntaxErrorKind::EmptyText });
    }
    let mut assembler = match Assembler::new() {
        Ok(a) => a,
        Err(e) => {
            return Err(e);
        },
    };
    let mut i: usize = 0;
    while i < text.len()
        invariant
            0 <= i <= text@.len(),
            spec_asm_run(spec_asm_new(), text@, 0) == spec_asm_run(assembler@, text@, i as int),
            assembler@.lines.len() <= i,
            spec_asm_wf(assembler@),
        decreases text@.len() - i,
    {
        proof {
            lemma_consume_lines_grow(assembler@, text@[i as int]);
        }
        match assembler.consume(text[i]) {
            Ok(u) => u,
            Err(e) => {
                return Err(e);
            },
        };
        i = i + 1;
    }
    match assembler.conclude() {
        Ok(u) => u,
        Err(e) => {
            return Err(e);
        },
    };
    let out = assembler.generate_binary();
    Ok(out)
}

} // verus!

verus! {

/// The number decoded from four big-endian bytes.
pub open spec fn spec_be32_value(b: Seq<u8>) -> int {
    b[0] * 0x100_0000 + b[1] * 0x1_0000 + b[2] * 0x100 + b[3]
}

/// The file's first four bytes decode, big-endian, to the resolved byte
/// address of the label `main`, whenever that address fits the 32-bit
/// header field.
pub proof fn lemma_header_encodes_main(st: AsmV)
    requires
        st.labels.contains_key(spec_main_name()),
        st.labels[spec_main_name()] <= u32::MAX,
    ensures
        spec_generate(st).len() >= 4,
        spec_generate(st).subrange(0, 4) == spec_be32(st.labels[spec_main_name()] as u32),
        spec_be32_value(spec_generate(st).subrange(0, 4)) == st.labels[spec_main_name()],
{
    let x = st.labels[spec_main_name()] as u32;
    assert(spec_generate(st).subrange(0, 4) =~= spec_be32(x));
    assert((x >> 24) < 256 && ((x >> 16) & 0xff) < 256 && ((x >> 8) & 0xff) < 256 && (x & 0xff)
        < 256) by (bit_vector);
    assert((x >> 24) * 0x100_0000 + ((x >> 16) & 0xff) * 0x1_0000 + ((x >> 8) & 0xff) * 0x100 + (x
        & 0xff) == x) by (bit_vector);
}

/// The byte address of line `i`: the sizes of all earlier lines, summed.
pub open spec fn spec_prefix_size(lines: Seq<Seq<WordV>>, i: int) -> int
    decreases i,
{
    if i <= 0 {
        0
    } else {
        spec_prefix_size(lines, i - 1) + spec_line_size(lines[i - 1])
    }
}

proof fn lemma_line_size_nonneg(ws: Seq<WordV>)
    ensures
        spec_line_size(ws) >= 0,
{
}

proof fn lemma_prefix_size_monotone(lines: Seq<Seq<WordV>>, i: int, j: int)
    requires
        0 <= i <= j,
    ensures
        spec_prefix_size(lines, i) <= spec_prefix_size(lines, j),
    decreases j - i,
{
    if i < j {
        lemma_prefix_size_monotone(lines, i, j - 1);
        lemma_line_size_nonneg(lines[j - 1]);
    }
}

proof fn lemma_insert_names_other(
    m: Map<Seq<char>, u64>,
    names: Seq<Seq<char>>,
    addr: u64,
    k: int,
    name: Seq<char>,
)
    requires
        forall|idx: int| k <= idx < names.len() ==> names[idx] != name,
    ensures
        spec_insert_names(m, names, addr, k).contains_key(name) == m.contains_key(name),
        m.contains_key(name) ==> spec_insert_names(m, names, addr, k)[name] == m[name],
    decreases names.len() - k,
{
    if 0 <= k < names.len() {
        lemma_insert_names_other(m.insert(names[k], addr), names, addr, k + 1, name);
    }
}

proof fn lemma_insert_names_value(
    m: Map<Seq<char>, u64>,
    names: Seq<Seq<char>>,
    addr: u64,
    k: int,
    name: Seq<char>,
)
    requires
        0 <= k,
        exists|idx: int| k <= idx < names.len() && names[idx] == name,
    ensures
        spec_insert_names(m, names, addr, k).contains_key(name),
        spec_insert_names(m, names, addr, k)[name] == addr,
    decreases names.len() - k,
{
    let idx = choose|idx: int| k <= idx < names.len() && names[idx] == name;
    if exists|idx2: int| k + 1 <= idx2 < names.len() && names[idx2] == name {
        lemma_insert_names_value(m.insert(names[k], addr), names, addr, k + 1, name);
    } else {
        assert(idx == k);
        lemma_insert_names_other(
            m.insert(names[k], addr).insert(names[k], addr),
            names,
            addr,
            k + 1,
            name,
        );
        lemma_insert_names_other(m.insert(names[k], addr), names, addr, k + 1, name);
    }
}

proof fn lemma_resolve_from_untouched(
    lines: Seq<Seq<WordV>>,
    labels: Map<Seq<char>, u64>,
    i: int,
    addr: u64,
    name: Seq<char>,
)
    requires
        forall|k: int| i <= k < lines.len() ==> !spec_decl_labels(#[trigger] lines[k]).contains(name),
    ensures
        spec_resolve_from(lines, labels, i, addr).contains_key(name) == labels.contains_key(name),
        labels.contains_key(name) ==> spec_resolve_from(lines, labels, i, addr)[name]
            == labels[name],
    decreases lines.len() - i,
{
    if 0 <= i < lines.len() {
        let names = spec_decl_labels(lines[i]);
        assert(forall|idx: int| 0 <= idx < names.len() ==> names[idx] != name) by {
            assert forall|idx: int| 0 <= idx < names.len() implies names[idx] != name by {
                if names[idx] == name {
                    assert(names.contains(name));
                }
            }
        }
        lemma_insert_names_other(labels, names, addr, 0, name);
        let labels2 = spec_insert_names(labels, names, addr, 0);
        let next = vstd::wrapping::u64_specs::wrapping_add(addr, spec_line_size(lines[i]) as u64);
        lemma_resolve_from_untouched(lines, labels2, i + 1, next, name);
    }
}

proof fn lemma_resolve_from_value(
    lines: Seq<Seq<WordV>>,
    labels: Map<Seq<char>, u64>,
    i: int,
    addr: u64,
    j: int,
    name: Seq<char>,
)
    requires
        0 <= i <= j < lines.len(),
        spec_decl_labels(lines[j]).contains(name),
        forall|k: int| j < k < lines.len() ==> !spec_decl_labels(#[trigger] lines[k]).contains(name),
        addr + (spec_prefix_size(lines, j) - spec_prefix_size(lines, i)) <= u64::MAX,
    ensures
        spec_resolve_from(lines, labels, i, addr).contains_key(name),
        spec_resolve_from(lines, labels, i, addr)[name] == addr + (spec_prefix_size(lines, j)
            - spec_prefix_size(lines, i)),
    decreases j - i,
{
    let names = spec_decl_labels(lines[i]);
    let labels2 = spec_insert_names(labels, names, addr, 0);
    let size = spec_line_size(lines[i]);
    lemma_line_size_nonneg(lines[i]);
    let next = vstd::wrapping::u64_specs::wrapping_add(addr, size as u64);
    if i == j {
        lemma_insert_names_value(labels, names, addr, 0, name);
        lemma_resolve_from_untouched(lines, labels2, i + 1, next, name);
    } else {
        lemma_prefix_size_monotone(lines, i + 1, j);
        assert(spec_prefix_size(lines, i + 1) == spec_prefix_size(lines, i) + size);
        assert(next == addr + size);
        lemma_resolve_from_value(lines, labels2, i + 1, next, j, name);
    }
}

/// Label addresses are exactly the running byte-size sums of the second
/// pass: a label declared on line `j` and never re-declared later resolves
/// to the total size of the lines before `j`, whenever the program's total
/// size fits the 64-bit address counter.
pub proof fn lemma_label_addresses(
    lines: Seq<Seq<WordV>>,
    labels0: Map<Seq<char>, u64>,
    j: int,
    name: Seq<char>,
)
    requires
        0 <= j < lines.len(),
        spec_decl_labels(lines[j]).contains(name),
        forall|k: int| j < k < lines.len() ==> !spec_decl_labels(#[trigger] lines[k]).contains(name),
        spec_prefix_size(lines, lines.len() as int) <= u64::MAX,
    ensures
        spec_resolve(lines, labels0).contains_key(name),
        spec_resolve(lines, labels0)[name] == spec_prefix_size(lines, j),
{
    lemma_prefix_size_monotone(lines, j, lines.len() as int);
    lemma_prefix_size_monotone(lines, 0, j);
    lemma_resolve_from_value(lines, labels0, 0, 0, j, name);
}

} // verus!

verus! {

/// Runs the assembler over a standalone stretch of characters.
pub open spec fn spec_asm_feed(st: AsmV, cs: Seq<char>) -> Result<AsmV, ErrorV>
    decreases cs.len(),
{
    if cs.len() == 0 {
        Ok(st)
    } else {
        match spec_asm_consume(st, cs[0]) {
            Err(e) => Err(e),
            Ok(st2) => spec_asm_feed(st2, cs.drop_first()),
        }
    }
}

/// Feeding a concatenation is feeding the parts in turn.
pub proof fn lemma_feed_concat(st: AsmV, a: Seq<char>, b: Seq<char>)
    ensures
        spec_asm_feed(st, a + b) == (match spec_asm_feed(st, a) {
            Err(e) => Err(e),
            Ok(st2) => spec_asm_feed(st2, b),
        }),
    decreases a.len(),
{
    if a.len() == 0 {
        assert(a + b =~= b);
    } else {
        assert((a + b)[0] == a[0]);
        match spec_asm_consume(st, a[0]) {
            Err(e) => {},
            Ok(st2) => {
                assert((a + b).drop_first() =~= a.drop_first() + b);
                lemma_feed_concat(st2, a.drop_first(), b);
            },
        }
    }
}

/// Running over the tail of a text is feeding its characters.
pub proof fn lemma_run_is_feed(st: AsmV, text: Seq<char>, i: int)
    requires
        0 <= i <= text.len(),
    ensures
        spec_asm_run(st, text, i) == spec_asm_feed(st, text.skip(i)),
    decreases text.len() - i,
{
    if i < text.len() {
        assert(text.skip(i)[0] == text[i]);
        match spec_asm_consume(st, text[i]) {
            Err(e) => {},
            Ok(st2) => {
                assert(text.skip(i).drop_first() =~= text.skip(i + 1));
                lemma_run_is_feed(st2, text, i + 1);
            },
        }
    }
}

proof fn lemma_comment_junk(st: AsmV, junk: Seq<char>)
    requires
        st.builder.in_comment,
        forall|k: int| 0 <= k < junk.len() ==> junk[k] != '\n',
    ensures
        spec_asm_feed(st, junk + seq!['\n']) == spec_asm_feed(st, seq!['\n']),
    decreases junk.len(),
{
    if junk.len() == 0 {
        assert(junk + seq!['\n'] =~= seq!['\n']);
    } else {
        assert((junk + seq!['\n'])[0] == junk[0]);
        assert(spec_asm_consume(st, junk[0]) == Result::<AsmV, ErrorV>::Ok(st)) by {
            assert(st == (AsmV {
                builder: st.builder,
                current: st.current,
                lines: st.lines,
                labels: st.labels,
            }));
        }
        assert((junk + seq!['\n']).drop_first() =~= junk.drop_first() + seq!['\n']);
        lemma_comment_junk(st, junk.drop_first());
    }
}

/// A line comment is invisible: from any state that is not inside a quote
/// or another comment, consuming `;`, then any characters without a
/// newline, then the newline, reaches exactly the state that consuming the
/// newline alone reaches.
pub proof fn lemma_comment_invisible(st: AsmV, junk: Seq<char>)
    requires
        !(st.builder.kind is DoubleQuote || st.builder.kind is SingleQuote),
        !st.builder.in_comment,
        forall|k: int| 0 <= k < junk.len() ==> junk[k] != '\n',
    ensures
        spec_asm_feed(st, seq![';'] + junk + seq!['\n']) == spec_asm_feed(st, seq!['\n']),
{
    let stc = AsmV {
        builder: crate::word::BuilderV {
            pure: st.builder.pure,
            kind: st.builder.kind,
            in_comment: true,
        },
        current: st.current,
        lines: st.lines,
        labels: st.labels,
    };
    assert(spec_asm_consume(st, ';') == Result::<AsmV, ErrorV>::Ok(stc));
    assert((seq![';'] + junk + seq!['\n'])[0] == ';');
    assert((seq![';'] + junk + seq!['\n']).drop_first() =~= junk + seq!['\n']);
    lemma_comment_junk(stc, junk);
    assert(spec_asm_feed(st, seq![';'] + junk + seq!['\n']) == spec_asm_feed(stc, seq!['\n']));
    assert(seq!['\n'].drop_first() =~= Seq::<char>::empty());
    assert(spec_step(stc.builder, '\n') == spec_step(st.builder, '\n')) by {
        assert(crate::word::BuilderV {
            pure: stc.builder.pure,
            kind: stc.builder.kind,
            in_comment: false,
        } == st.builder);
    }
    assert(spec_asm_consume(stc, '\n') == spec_asm_consume(st, '\n'));
}

/// At a fresh line boundary — the state right after a newline, with no
/// words gathered — one more newline only appends an empty line: the label
/// table, the gathered words and the earlier lines stay as they were.
pub proof fn lemma_blank_line_consume(st: AsmV)
    requires
        st.current.len() == 0,
        !st.builder.in_comment,
        st.builder.kind is Unknown,
        st.builder.pure == seq!['\n'],
    ensures
        spec_asm_consume(st, '\n') matches Ok(st2) && st2 == (AsmV {
            builder: crate::word::BuilderV {
                pure: seq!['\n'],
                kind: crate::word::WordKind::Unknown,
                in_comment: false,
            },
            current: Seq::empty(),
            lines: st.lines.push(Seq::empty()),
            labels: st.labels,
        }),
{
    let b1 = crate::word::spec_push_char(st.builder, '\n');
    assert(b1.pure =~= seq!['\n', '\n']);
    assert(!crate::word::spec_is_digit('\n'));
    let w = crate::word::WordV {
        pure: b1.pure,
        content: ContentV::Empty,
        sep: crate::word::WordSeparator::EndOfLine,
    };
    assert(crate::word::spec_word_content(b1.kind, b1.pure, true) == Result::<
        ContentV,
        ErrorKindV,
    >::Ok(ContentV::Empty)) by {
        assert(crate::word::spec_trim(b1.kind, b1.pure, true) == Result::<
            Seq<char>,
            ErrorKindV,
        >::Ok(Seq::<char>::empty()));
    }
    let line1 = st.current.push(w);
    assert(crate::line::spec_line_extract(line1) == Result::<Seq<WordV>, ErrorKindV>::Ok(
        Seq::<WordV>::empty(),
    )) by {
        assert(line1.len() == 1);
        assert(line1[0].content is Empty);
        assert(crate::line::spec_next_real(line1, 1) == 1);
        assert(crate::line::spec_next_real(line1, 0) == 1);
        assert(crate::line::spec_body_index(line1, 1) == 1);
        assert(crate::line::spec_body_index(line1, 0) == 1);
        assert(crate::line::spec_gap(line1, 1, 1) =~= Seq::<char>::empty());
        assert(crate::line::spec_gap(line1, 0, 1) =~= w.pure);
        assert(crate::line::spec_gap_ok(w.pure, None, 0)) by {
            assert(w.pure.take(1) =~= seq!['\n']);
            assert(seq!['\n'].drop_last() =~= Seq::<char>::empty());
            assert(crate::line::spec_filter_hard(Seq::<char>::empty()) =~= Seq::<char>::empty());
            assert(crate::line::spec_filter_hard(seq!['\n']) =~= Seq::<char>::empty());
            assert(crate::line::spec_filter_hard(w.pure.take(1)) =~= Seq::<char>::empty());
        }
        assert(forall|p: int|
            !(0 <= p < 1 && (#[trigger] line1[p].content) is LabelDeclaration));
        assert(crate::line::spec_filter_real(line1) =~= Seq::<WordV>::empty()) by {
            assert(line1.drop_last() =~= Seq::<WordV>::empty());
            assert(crate::line::spec_filter_real(Seq::<WordV>::empty()) =~= Seq::<WordV>::empty());
        }
    }
}

proof fn lemma_empty_resolve_shift(
    lines: Seq<Seq<WordV>>,
    labels: Map<Seq<char>, u64>,
    i: int,
    k: int,
    addr: u64,
)
    requires
        0 <= i <= lines.len(),
        i <= k <= lines.len(),
    ensures
        spec_resolve_from(lines.insert(i, Seq::empty()), labels, k + 1, addr) == spec_resolve_from(
            lines,
            labels,
            k,
            addr,
        ),
    decreases lines.len() - k,
{
    let li = lines.insert(i, Seq::<WordV>::empty());
    if k < lines.len() {
        assert(li[k + 1] == lines[k]);
        let names = spec_decl_labels(lines[k]);
        let labels2 = spec_insert_names(labels, names, addr, 0);
        let next = vstd::wrapping::u64_specs::wrapping_add(addr, spec_line_size(lines[k]) as u64);
        lemma_empty_resolve_shift(lines, labels2, i, k + 1, next);
    }
}

proof fn lemma_empty_emit_shift(
    lines: Seq<Seq<WordV>>,
    labels: Map<Seq<char>, u64>,
    i: int,
    k: int,
)
    requires
        0 <= i <= lines.len(),
        i <= k <= lines.len(),
    ensures
        spec_emit_lines(lines.insert(i, Seq::empty()), labels, k + 1) == spec_emit_lines(
            lines,
            labels,
            k,
        ),
    decreases lines.len() - k,
{
    let li = lines.insert(i, Seq::<WordV>::empty());
    if k < lines.len() {
        assert(li[k + 1] == lines[k]);
        lemma_empty_emit_shift(lines, labels, i, k + 1);
    }
}

proof fn lemma_empty_resolve_prefix(
    lines: Seq<Seq<WordV>>,
    labels: Map<Seq<char>, u64>,
    i: int,
    k: int,
    addr: u64,
)
    requires
        0 <= k <= i <= lines.len(),
    ensures
        spec_resolve_from(lines.insert(i, Seq::empty()), labels, k, addr) == spec_resolve_from(
            lines,
            labels,
            k,
            addr,
        ),
    decreases i - k,
{
    let li = lines.insert(i, Seq::<WordV>::empty());
    if k < i {
        assert(li[k] == lines[k]);
        let names = spec_decl_labels(lines[k]);
        let labels2 = spec_insert_names(labels, names, addr, 0);
        let next = vstd::wrapping::u64_specs::wrapping_add(addr, spec_line_size(lines[k]) as u64);
        lemma_empty_resolve_prefix(lines, labels2, i, k + 1, next);
    } else {
        assert(li[i] =~= Seq::<WordV>::empty());
        assert(spec_decl_labels(li[i]).len() == 0);
        assert(spec_insert_names(labels, spec_decl_labels(li[i]), addr, 0) == labels);
        assert(spec_line_size(li[i]) == 0);
        assert(vstd::wrapping::u64_specs::wrapping_add(addr, 0u64) == addr);
        lemma_empty_resolve_shift(lines, labels, i, i, addr);
    }
}

proof fn lemma_empty_emit_prefix(lines: Seq<Seq<WordV>>, labels: Map<Seq<char>, u64>, i: int, k: int)
    requires
        0 <= k <= i <= lines.len(),
    ensures
        spec_emit_lines(lines.insert(i, Seq::empty()), labels, k) == spec_emit_lines(
            lines,
            labels,
            k,
        ),
    decreases i - k,
{
    let li = lines.insert(i, Seq::<WordV>::empty());
    if k < i {
        assert(li[k] == lines[k]);
        lemma_empty_emit_prefix(lines, labels, i, k + 1);
    } else {
        assert(li[i] =~= Seq::<WordV>::empty());
        assert(spec_encode_line(li[i], labels) =~= Seq::<u8>::empty());
        lemma_empty_emit_shift(lines, labels, i, i);
        assert(spec_encode_line(li[i], labels) + spec_emit_lines(li, labels, i + 1) =~=
            spec_emit_lines(lines, labels, i));
    }
}

/// An empty line is invisible to the output: inserting one anywhere leaves
/// both the resolved label addresses and the emitted bytes unchanged.
pub proof fn lemma_empty_line_invisible(
    lines: Seq<Seq<WordV>>,
    labels0: Map<Seq<char>, u64>,
    labels: Map<Seq<char>, u64>,
    i: int,
)
    requires
        0 <= i <= lines.len(),
    ensures
        spec_resolve(lines.insert(i, Seq::empty()), labels0) == spec_resolve(lines, labels0),
        spec_emit_lines(lines.insert(i, Seq::empty()), labels, 0) == spec_emit_lines(
            lines,
            labels,
            0,
        ),
{
    lemma_empty_resolve_prefix(lines, labels0, i, 0, 0);
    lemma_empty_emit_prefix(lines, labels, i, 0);
}

} // verus!

verus! {

/// Adding or removing a line comment does not change the assembly: a text
/// that reads `a`, then `;` and a comment, then the newline and `b`,
/// assembles exactly like the text without the comment — provided the
/// comment starts outside a quoted literal and outside another comment.
pub proof fn lemma_comment_lines_immaterial(a: Seq<char>, junk: Seq<char>, b: Seq<char>)
    requires
        spec_asm_feed(spec_asm_new(), a) matches Ok(st) && !(st.builder.kind is DoubleQuote
            || st.builder.kind is SingleQuote) && !st.builder.in_comment,
        forall|k: int| 0 <= k < junk.len() ==> junk[k] != '\n',
    ensures
        spec_assemble(a + (seq![';'] + junk) + (seq!['\n'] + b)) == spec_assemble(
            a + seq!['\n'] + b,
        ),
{
    let st = spec_asm_feed(spec_asm_new(), a)->Ok_0;
    let with_comment = a + (seq![';'] + junk) + (seq!['\n'] + b);
    let without = a + seq!['\n'] + b;
    assert(with_comment.len() > 0);
    assert(without.len() > 0);
    lemma_run_is_feed(spec_asm_new(), with_comment, 0);
    lemma_run_is_feed(spec_asm_new(), without, 0);
    assert(with_comment.skip(0) =~= with_comment);
    assert(without.skip(0) =~= without);
    assert(with_comment =~= a + ((seq![';'] + junk + seq!['\n']) + b));
    assert(without =~= a + (seq!['\n'] + b));
    lemma_feed_concat(spec_asm_new(), a, (seq![';'] + junk + seq!['\n']) + b);
    lemma_feed_concat(spec_asm_new(), a, seq!['\n'] + b);
    lemma_feed_concat(st, seq![';'] + junk + seq!['\n'], b);
    lemma_feed_concat(st, seq!['\n'], b);
    lemma_comment_invisible(st, junk);
}

} // verus!

verus! {

/// A line without words declares nothing and refers to nothing.
proof fn lemma_find_undeclared_empty_insert(
    lines: Seq<Seq<WordV>>,
    labels: Map<Seq<char>, u64>,
    i: int,
    k: int,
)
    requires
        0 <= i <= lines.len(),
        0 <= k <= i,
    ensures
        spec_find_undeclared(lines.insert(i, Seq::empty()), labels, k) is None
            <==> spec_find_undeclared(lines, labels, k) is None,
    decreases lines.len() - k,
{
    let li = lines.insert(i, Seq::<WordV>::empty());
    if k < i {
        assert(li[k] == lines[k]);
        lemma_find_undeclared_empty_insert(lines, labels, i, k + 1);
    } else {
        assert(li[k] =~= Seq::<WordV>::empty());
        assert(spec_undeclared_in_line(li[k], labels, 0) is None);
        lemma_find_undeclared_skip(lines, labels, i, k);
    }
}

proof fn lemma_find_undeclared_skip(
    lines: Seq<Seq<WordV>>,
    labels: Map<Seq<char>, u64>,
    i: int,
    k: int,
)
    requires
        0 <= i <= k <= lines.len(),
    ensures
        spec_find_undeclared(lines.insert(i, Seq::empty()), labels, k + 1) is None
            <==> spec_find_undeclared(lines, labels, k) is None,
    decreases lines.len() - k,
{
    let li = lines.insert(i, Seq::<WordV>::empty());
    if k < lines.len() {
        assert(li[k + 1] == lines[k]);
        lemma_find_undeclared_skip(lines, labels, i, k + 1);
    }
}

/// A trailing blank line is invisible: a text that assembles successfully
/// and ends at a fresh line boundary assembles to the same bytes when one
/// more newline follows it.
pub proof fn lemma_trailing_blank_line_immaterial(a: Seq<char>)
    requires
        spec_asm_feed(spec_asm_new(), a) matches Ok(st) && st.current.len() == 0 && st.builder
            == (BuilderV {
            pure: seq!['\n'],
            kind: crate::word::WordKind::Unknown,
            in_comment: false,
        }),
        spec_assemble(a) is Ok,
    ensures
        spec_assemble(a.push('\n')) == spec_assemble(a),
{
    let st = spec_asm_feed(spec_asm_new(), a)->Ok_0;
    assert(a.len() > 0) by {
        if a.len() == 0 {
            assert(spec_asm_feed(spec_asm_new(), a) == Result::<AsmV, ErrorV>::Ok(spec_asm_new()));
        }
    }
    lemma_run_is_feed(spec_asm_new(), a, 0);
    assert(a.skip(0) =~= a);
    assert(spec_asm_run(spec_asm_new(), a, 0) == Result::<AsmV, ErrorV>::Ok(st));
    let b = a.push('\n');
    lemma_run_is_feed(spec_asm_new(), b, 0);
    assert(b.skip(0) =~= b);
    assert(b =~= a + seq!['\n']);
    lemma_feed_concat(spec_asm_new(), a, seq!['\n']);
    lemma_blank_line_consume(st);
    let st2 = spec_asm_consume(st, '\n')->Ok_0;
    assert(seq!['\n'].drop_first() =~= Seq::<char>::empty());
    assert(seq!['\n'].len() == 1 && seq!['\n'][0] == '\n');
    assert(spec_asm_feed(st2, Seq::<char>::empty()) == Result::<AsmV, ErrorV>::Ok(st2));
    assert(spec_asm_feed(st, seq!['\n']) == Result::<AsmV, ErrorV>::Ok(st2));
    assert(spec_asm_feed(spec_asm_new(), b) == Result::<AsmV, ErrorV>::Ok(st2));

    // The conclusions of the two states agree: the extra empty line
    // declares nothing, refers to nothing, takes no space and emits
    // nothing.
    assert(spec_conclude(st) is Ok);
    let w = spec_eof_word(st.builder)->Ok_0;
    let l = spec_line_extract(st.current.push(w))->Ok_0;
    assert(st2.current.push(w) == st.current.push(w));
    let lines1 = st.lines.push(l);
    let lines2 = st2.lines.push(l);
    assert(lines2 =~= lines1.insert(st.lines.len() as int, Seq::empty()));
    lemma_find_undeclared_empty_insert(lines1, st.labels, st.lines.len() as int, 0);
    lemma_empty_resolve_prefix(lines1, st.labels, st.lines.len() as int, 0, 0);
    let resolved = spec_resolve(lines1, st.labels);
    lemma_empty_emit_prefix(lines1, resolved, st.lines.len() as int, 0);
    assert(spec_conclude(st2) is Ok);
    let stc1 = spec_conclude(st)->Ok_0;
    let stc2 = spec_conclude(st2)->Ok_0;
    assert(stc1.labels == stc2.labels);
    assert(spec_generate(stc2) == spec_generate(stc1));
}

} // verus!
