//! The line assembler and the per-line binary encoder.
//!
//! A [`Line`] is built from the words the tokenizer accumulated for one
//! source line.  Building validates the separator grammar — any number of
//! label declarations, then a standalone string literal or an opcode with
//! comma-separated operands — and checks the opcode's operand shape.  A
//! built line can report its declared labels and byte size, and encode
//! itself into the output stream.

use crate::errors::{ErrorKindV, SyntaxErrorKind};
use crate::labels::LabelTable;
use crate::op_codes::{spec_check_compatibility, spec_jcode_value, spec_op_value, OpCode};
use crate::registers::spec_register_index;
use crate::word::{copy_chars, word_views, ContentV, Word, WordV};
use vstd::prelude::*;

verus! {

/// The real words of a line: everything but the whitespace-only words.
pub open spec fn spec_filter_real(ws: Seq<WordV>) -> Seq<WordV>
    decreases ws.len(),
{
    if ws.len() == 0 {
        Seq::empty()
    } else {
        let rest = spec_filter_real(ws.drop_last());
        if ws.last().content is Empty {
            rest
        } else {
            rest.push(ws.last())
        }
    }
}

/// The first position at or after `i` holding a real word, or the length.
pub open spec fn spec_next_real(ws: Seq<WordV>, i: int) -> int
    decreases ws.len() - i,
{
    if i < 0 || i >= ws.len() {
        ws.len() as int
    } else if !(ws[i].content is Empty) {
        i
    } else {
        spec_next_real(ws, i + 1)
    }
}

/// The raw characters sitting between two positions: the concatenated
/// `pure_content` of the words in `[i, j)`.
pub open spec fn spec_gap(ws: Seq<WordV>, i: int, j: int) -> Seq<char>
    decreases j - i,
{
    if i < 0 || i >= j || j > ws.len() {
        Seq::empty()
    } else {
        ws[i].pure + spec_gap(ws, i + 1, j)
    }
}

/// The separator-grammar rule: ignoring spaces, newlines and the NUL
/// sentinel that seeds the tokenizer, every non-final character of the
/// skipped text must be the allowed character, and the number of such
/// characters must equal `count`.  Skipped text of at most one character
/// always passes.
pub open spec fn spec_gap_ok(skipped: Seq<char>, allowed: Option<char>, count: int) -> bool {
    skipped.len() <= 1 || {
        let t = spec_filter_hard(skipped.take(skipped.len() - 1));
        t.len() == count && (forall|k: int|
            0 <= k < t.len() ==> allowed == Some(#[trigger] t[k]))
    }
}

/// The characters of `s` that are not spaces, newlines or NUL.
pub open spec fn spec_filter_hard(s: Seq<char>) -> Seq<char>
    decreases s.len(),
{
    if s.len() == 0 {
        Seq::empty()
    } else {
        let rest = spec_filter_hard(s.drop_last());
        if s.last() == ' ' || s.last() == '\n' || s.last() == '\0' {
            rest
        } else {
            rest.push(s.last())
        }
    }
}

/// The first position at or after `i` holding a real word that is not a
/// label declaration, or the length.
pub open spec fn spec_body_index(ws: Seq<WordV>, i: int) -> int
    decreases ws.len() - i,
{
    if i < 0 || i >= ws.len() {
        ws.len() as int
    } else if ws[i].content is Empty || ws[i].content is LabelDeclaration {
        spec_body_index(ws, i + 1)
    } else {
        i
    }
}

proof fn lemma_next_real_bounds(ws: Seq<WordV>, i: int)
    requires
        0 <= i <= ws.len(),
    ensures
        i <= spec_next_real(ws, i) <= ws.len(),
        spec_next_real(ws, i) < ws.len() ==> !(ws[spec_next_real(ws, i)].content is Empty),
        forall|p: int| i <= p < spec_next_real(ws, i) ==> (#[trigger] ws[p].content) is Empty,
    decreases ws.len() - i,
{
    if i < ws.len() && ws[i].content is Empty {
        lemma_next_real_bounds(ws, i + 1);
    }
}

proof fn lemma_body_index_bounds(ws: Seq<WordV>, i: int)
    requires
        0 <= i <= ws.len(),
    ensures
        i <= spec_body_index(ws, i) <= ws.len(),
        spec_body_index(ws, i) < ws.len() ==> !(ws[spec_body_index(ws, i)].content is Empty)
            && !(ws[spec_body_index(ws, i)].content is LabelDeclaration),
        forall|p: int|
            i <= p < spec_body_index(ws, i) ==> (#[trigger] ws[p].content) is Empty
                || ws[p].content is LabelDeclaration,
    decreases ws.len() - i,
{
    if i < ws.len() && (ws[i].content is Empty || ws[i].content is LabelDeclaration) {
        lemma_body_index_bounds(ws, i + 1);
    }
}

/// Stepping the body search over a prefix of empties and label declarations
/// leaves it unchanged.
proof fn lemma_body_index_skip(ws: Seq<WordV>, i: int, j: int)
    requires
        0 <= i <= j <= ws.len(),
        forall|p: int|
            i <= p < j ==> (#[trigger] ws[p].content) is Empty || ws[p].content
                is LabelDeclaration,
    ensures
        spec_body_index(ws, i) == spec_body_index(ws, j),
    decreases j - i,
{
    if i < j {
        lemma_body_index_skip(ws, i + 1, j);
    }
}

/// The concatenated gap grows one word at a time.
proof fn lemma_gap_snoc(ws: Seq<WordV>, a: int, b: int)
    requires
        0 <= a <= b < ws.len(),
    ensures
        spec_gap(ws, a, b + 1) == spec_gap(ws, a, b) + ws[b].pure,
    decreases b - a,
{
    if a < b {
        lemma_gap_snoc(ws, a + 1, b);
        assert(spec_gap(ws, a, b + 1) =~= spec_gap(ws, a, b) + ws[b].pure);
    } else {
        assert(spec_gap(ws, a + 1, a + 1) =~= Seq::<char>::empty());
        assert(spec_gap(ws, a, a) =~= Seq::<char>::empty());
        assert(spec_gap(ws, a, a + 1) == ws[a].pure + spec_gap(ws, a + 1, a + 1));
        assert(spec_gap(ws, a, a + 1) =~= spec_gap(ws, a, a) + ws[a].pure);
    }
}

/// Appends the characters of `src` to `dst`.
pub fn append_chars(dst: &mut Vec<char>, src: &Vec<char>)
    ensures
        final(dst)@ == old(dst)@ + src@,
{
    let mut i: usize = 0;
    proof {
        assert(dst@ + src@.take(0) =~= dst@);
    }
    let ghost orig = dst@;
    while i < src.len()
        invariant
            0 <= i <= src@.len(),
            dst@ == orig + src@.take(i as int),
        decreases src@.len() - i,
    {
        proof {
            assert(orig + src@.take(i + 1) =~= (orig + src@.take(i as int)).push(src@[i as int]));
        }
        dst.push(src[i]);
        i = i + 1;
    }
    proof {
        assert(orig + src@.take(src@.len() as int) =~= orig + src@);
    }
}

/// Finds the next real word at or after `from`, returning the skipped raw
/// characters and its position (or the word count when none is left).
#[verifier::loop_isolation(false)]
pub fn next_real(words: &Vec<Word>, from: usize) -> (r: (Vec<char>, usize))
    requires
        from <= words@.len(),
    ensures
        r.1 == spec_next_real(word_views(words@), from as int),
        r.0@ == spec_gap(word_views(words@), from as int, r.1 as int),
        from <= r.1 <= words@.len(),
    {
    let ghost ws = word_views(words@);
    proof {
        assert(forall|p: int| 0 <= p < words@.len() ==> ws[p] == words@[p]@);
    }
    let mut skipped: Vec<char> = Vec::new();
    let mut i: usize = from;
    proof {
        assert(spec_gap(ws, from as int, from as int) =~= Seq::<char>::empty());
    }
    while i < words.len() && words[i].is_empty_word()
        invariant
            from <= i <= words@.len(),
            spec_next_real(ws, from as int) == spec_next_real(ws, i as int),
            skipped@ == spec_gap(ws, from as int, i as int),
            forall|p: int| from <= p < i ==> (#[trigger] ws[p].content) is Empty,
        decreases words@.len() - i,
    {
        proof {
            lemma_gap_snoc(ws, from as int, i as int);
        }
        append_chars(&mut skipped, &words[i].pure_content);
        i = i + 1;
    }
    (skipped, i)
}

/// Decides the separator-grammar rule for the raw characters sitting
/// between two real words.
#[verifier::loop_isolation(false)]
pub fn check_skipped(skipped: &Vec<char>, allowed: Option<char>, count: usize) -> (r: bool)
    ensures
        r == spec_gap_ok(skipped@, allowed, count as int),
{
    if skipped.len() <= 1 {
        return true;
    }
    let stop = skipped.len() - 1;
    let ghost full = spec_filter_hard(skipped@.take(stop as int));
    let mut n: usize = 0;
    let mut i: usize = 0;
    proof {
        assert(spec_filter_hard(skipped@.take(0)) =~= Seq::<char>::empty());
    }
    while i < stop
        invariant
            0 <= i <= stop,
            n == spec_filter_hard(skipped@.take(i as int)).len(),
            n <= i,
            spec_filter_hard(skipped@.take(i as int)) == full.take(n as int),
            forall|k: int|
                0 <= k < n ==> allowed == Some(
                    #[trigger] spec_filter_hard(skipped@.take(i as int))[k],
                ),
        decreases stop - i,
    {
        let c = skipped[i];
        proof {
            assert(skipped@.take(i + 1).drop_last() =~= skipped@.take(i as int));
            assert(skipped@.take(stop as int).take(i + 1) =~= skipped@.take(i + 1));
            lemma_filter_hard_prefix(skipped@.take(stop as int), i + 1);
        }
        if !(c == ' ' || c == '\n' || c == '\0') {
            proof {
                let t = spec_filter_hard(skipped@.take(i + 1));
                assert(t == spec_filter_hard(skipped@.take(i as int)).push(c));
                assert(t == full.take(n + 1));
                assert(full[n as int] == t[n as int]);
                assert(full[n as int] == c);
            }
            let ok = match allowed {
                Some(a) => c == a,
                None => false,
            };
            if !ok {
                return false;
            }
            n = n + 1;
        } else {
            proof {
                assert(spec_filter_hard(skipped@.take(i + 1)) == spec_filter_hard(
                    skipped@.take(i as int),
                ));
            }
        }
        i = i + 1;
    }
    proof {
        assert(skipped@.take(stop as int).take(stop as int) =~= skipped@.take(stop as int));
        assert(full.take(n as int) =~= full);
    }
    n == count
}

/// A prefix of the hard-character filter is the filter of the prefix.
proof fn lemma_filter_hard_prefix(s: Seq<char>, i: int)
    requires
        0 <= i <= s.len(),
    ensures
        spec_filter_hard(s.take(i)).len() <= spec_filter_hard(s).len(),
        spec_filter_hard(s.take(i)) == spec_filter_hard(s).take(
            spec_filter_hard(s.take(i)).len() as int,
        ),
    decreases s.len() - i,
{
    if i == s.len() {
        assert(s.take(i) =~= s);
        assert(spec_filter_hard(s).take(spec_filter_hard(s).len() as int) =~= spec_filter_hard(s));
    } else {
        lemma_filter_hard_prefix(s, i + 1);
        assert(s.take(i + 1).drop_last() =~= s.take(i));
        let a = spec_filter_hard(s.take(i));
        let b = spec_filter_hard(s.take(i + 1));
        if s[i] == ' ' || s[i] == '\n' || s[i] == '\0' {
            assert(b == a);
        } else {
            assert(b == a.push(s[i]));
            assert(a =~= b.take(a.len() as int));
            assert(a =~= spec_filter_hard(s).take(a.len() as int));
        }
    }
}

} // verus!

verus! {

/// The first position of a filtered line that is not a label declaration,
/// searching from `i`.
pub open spec fn spec_decl_end_from(ws: Seq<WordV>, i: int) -> int
    decreases ws.len() - i,
{
    if i < 0 || i >= ws.len() {
        ws.len() as int
    } else if ws[i].content is LabelDeclaration {
        spec_decl_end_from(ws, i + 1)
    } else {
        i
    }
}

/// The number of leading label declarations of a filtered line.
pub open spec fn spec_decl_end(ws: Seq<WordV>) -> int {
    spec_decl_end_from(ws, 0)
}

/// Every string word carries at least one byte and ends in NUL.
pub open spec fn spec_strs_nul(ws: Seq<WordV>) -> bool {
    forall|i: int|
        0 <= i < ws.len() ==> ((#[trigger] ws[i].content) matches ContentV::Str(b) ==> b.len() >= 1
            && b[b.len() - 1] == 0)
}

/// The shape every built line has: no whitespace words, a prefix of label
/// declarations, and then either nothing, a standalone string word, or an
/// opcode whose operands satisfy its shape rule.
pub open spec fn spec_line_shape(ws: Seq<WordV>) -> bool {
    &&& forall|i: int| 0 <= i < ws.len() ==> !((#[trigger] ws[i]).content is Empty)
    &&& {
        let d = spec_decl_end(ws);
        d < ws.len() ==> {
            ||| (ws[d].content is Str && d == ws.len() - 1)
            ||| (ws[d].content matches ContentV::OpCode(op) && spec_check_compatibility(
                op,
                ws.skip(d + 1),
            ) is Ok)
        }
    }
}

/// The operand phase of line validation: between an opcode and its first
/// operand only spaces may stand, between two operands exactly one comma,
/// and after the last operand only trailing spaces.
pub open spec fn spec_extract_operands(ws: Seq<WordV>, k: int, op: OpCode) -> Result<
    Seq<WordV>,
    ErrorKindV,
> {
    let j1 = spec_next_real(ws, k + 1);
    if !spec_gap_ok(spec_gap(ws, k + 1, j1), None, 0) {
        Err(ErrorKindV::SyntaxError)
    } else if j1 >= ws.len() {
        match spec_check_compatibility(op, Seq::empty()) {
            Ok(_) => Ok(spec_filter_real(ws)),
            Err(e) => Err(e),
        }
    } else {
        let j2 = spec_next_real(ws, j1 + 1);
        let g = spec_gap(ws, j1 + 1, j2);
        if j2 >= ws.len() {
            if !spec_gap_ok(g, None, 0) {
                Err(ErrorKindV::SyntaxError)
            } else {
                match spec_check_compatibility(op, seq![ws[j1]]) {
                    Ok(_) => Ok(spec_filter_real(ws)),
                    Err(e) => Err(e),
                }
            }
        } else {
            if spec_gap_ok(g, None, 0) {
                Err(ErrorKindV::SyntaxError)
            } else if !spec_gap_ok(g, Some(','), 1) {
                Err(ErrorKindV::SyntaxError)
            } else {
                match spec_check_compatibility(op, seq![ws[j1], ws[j2]]) {
                    Err(e) => Err(e),
                    Ok(_) => {
                        let j3 = spec_next_real(ws, j2 + 1);
                        if !spec_gap_ok(spec_gap(ws, j2 + 1, j3), None, 0) {
                            Err(ErrorKindV::SyntaxError)
                        } else if j3 < ws.len() {
                            Err(ErrorKindV::SyntaxError)
                        } else {
                            Ok(spec_filter_real(ws))
                        }
                    },
                }
            }
        }
    }
}

/// Validates the words of one source line and keeps its real words: any
/// number of label declarations, then a standalone string literal, an
/// opcode with validated operands, or nothing.
pub open spec fn spec_line_extract(ws: Seq<WordV>) -> Result<Seq<WordV>, ErrorKindV> {
    let j0 = spec_next_real(ws, 0);
    let k = spec_body_index(ws, 0);
    if !spec_gap_ok(spec_gap(ws, 0, j0), None, 0) {
        Err(ErrorKindV::SyntaxError)
    } else if exists|p: int|
        0 <= p < k && (#[trigger] ws[p].content) is LabelDeclaration && !spec_gap_ok(
            spec_gap(ws, p + 1, spec_next_real(ws, p + 1)),
            Some(':'),
            1,
        ) {
        Err(ErrorKindV::SyntaxError)
    } else if k >= ws.len() {
        Ok(spec_filter_real(ws))
    } else if ws[k].content is Str {
        let j = spec_next_real(ws, k + 1);
        if !spec_gap_ok(spec_gap(ws, k + 1, j), Some('"'), 1) {
            Err(ErrorKindV::SyntaxError)
        } else if j < ws.len() {
            Err(ErrorKindV::SyntaxError)
        } else {
            Ok(spec_filter_real(ws))
        }
    } else if ws[k].content is OpCode {
        spec_extract_operands(ws, k, ws[k].content->OpCode_0)
    } else {
        Err(ErrorKindV::SyntaxError)
    }
}

/// Filtering ignores a stretch of whitespace-only words.
proof fn lemma_filter_real_skip_empty(ws: Seq<WordV>, a: int, b: int)
    requires
        0 <= a <= b <= ws.len(),
        forall|p: int| a <= p < b ==> (#[trigger] ws[p].content) is Empty,
    ensures
        spec_filter_real(ws.take(b)) == spec_filter_real(ws.take(a)),
    decreases b - a,
{
    if a < b {
        assert(ws.take(b).drop_last() =~= ws.take(b - 1));
        lemma_filter_real_skip_empty(ws, a, b - 1);
    }
}

/// Filtering keeps a real word at the end of a prefix.
proof fn lemma_filter_real_snoc(ws: Seq<WordV>, b: int)
    requires
        0 <= b < ws.len(),
        !(ws[b].content is Empty),
    ensures
        spec_filter_real(ws.take(b + 1)) == spec_filter_real(ws.take(b)).push(ws[b]),
{
    assert(ws.take(b + 1).drop_last() =~= ws.take(b));
}

/// A sequence made of `d` label declarations followed by non-declarations
/// has its declaration prefix end exactly at `d`.
proof fn lemma_decl_end_at(ws: Seq<WordV>, d: int, i: int)
    requires
        0 <= i <= d <= ws.len(),
        forall|p: int| 0 <= p < d ==> (#[trigger] ws[p].content) is LabelDeclaration,
        d < ws.len() ==> !(ws[d].content is LabelDeclaration),
    ensures
        spec_decl_end_from(ws, i) == d,
    decreases d - i,
{
    if i < d {
        lemma_decl_end_at(ws, d, i + 1);
    }
}

} // verus!

verus! {

/// Validates the words of one source line and keeps its real words.
#[verifier::loop_isolation(false)]
#[verifier::rlimit(30)]
pub fn extract(words: Vec<Word>) -> (r: Result<Vec<Word>, SyntaxErrorKind>)
    ensures
        match r {
            Ok(v) => spec_line_extract(word_views(words@)) == Result::<
                Seq<WordV>,
                ErrorKindV,
            >::Ok(word_views(v@)) && spec_line_shape(word_views(v@)),
            Err(e) => spec_line_extract(word_views(words@)) == Result::<
                Seq<WordV>,
                ErrorKindV,
            >::Err(e@),
        },
{
    let ghost ws = word_views(words@);
    proof {
        assert(forall|p: int| 0 <= p < words@.len() ==> ws[p] == words@[p]@);
        lemma_body_index_bounds(ws, 0);
        lemma_next_real_bounds(ws, 0);
    }
    let mut res: Vec<Word> = Vec::new();
    let (skipped0, j0) = next_real(&words, 0);
    if !check_skipped(&skipped0, None, 0) {
        return Err(SyntaxErrorKind::SyntaxError);
    }
    let mut j = j0;
    proof {
        lemma_body_index_skip(ws, 0, j as int);
        assert(spec_filter_real(ws.take(0)) =~= Seq::<WordV>::empty());
        lemma_filter_real_skip_empty(ws, 0, j as int);
        assert(word_views(res@) =~= Seq::<WordV>::empty());
    }
    while j < words.len() && words[j].is_label_decl()
        invariant
            j0 <= j <= words@.len(),
            spec_body_index(ws, 0) == spec_body_index(ws, j as int),
            j < words@.len() ==> !(ws[j as int].content is Empty),
            word_views(res@) == spec_filter_real(ws.take(j as int)),
            forall|i: int|
                0 <= i < res@.len() ==> (#[trigger] word_views(res@)[i]).content
                    is LabelDeclaration,
            forall|p: int|
                0 <= p < j ==> !((#[trigger] ws[p].content) is LabelDeclaration) || spec_gap_ok(
                    spec_gap(ws, p + 1, spec_next_real(ws, p + 1)),
                    Some(':'),
                    1,
                ),
        decreases words@.len() - j,
    {
        proof {
            lemma_filter_real_snoc(ws, j as int);
        }
        let w = words[j].duplicate();
        proof {
            assert(word_views(res@.push(w)) =~= word_views(res@).push(w@));
        }
        res.push(w);
        let (g, j2) = next_real(&words, j + 1);
        proof {
            lemma_next_real_bounds(ws, j + 1);
            lemma_body_index_bounds(ws, j + 1);
        }
        if !check_skipped(&g, Some(':'), 1) {
            proof {
                assert(spec_body_index(ws, j as int) == spec_body_index(ws, j + 1));
                assert(j < spec_body_index(ws, 0));
            }
            return Err(SyntaxErrorKind::SyntaxError);
        }
        proof {
            lemma_filter_real_skip_empty(ws, j + 1, j2 as int);
            lemma_body_index_skip(ws, j + 1, j2 as int);
            assert(spec_body_index(ws, j as int) == spec_body_index(ws, j + 1));
        }
        j = j2;
    }
    proof {
        if j < words@.len() {
            assert(spec_body_index(ws, j as int) == j);
        }
        assert(spec_body_index(ws, 0) == j);
    }
    if j == words.len() {
        proof {
            assert(ws.take(j as int) =~= ws);
            let rs = word_views(res@);
            lemma_decl_end_at(rs, rs.len() as int, 0);
        }
        return Ok(res);
    }
    let ghost d = res@.len() as int;
    if words[j].is_str() {
        proof {
            lemma_filter_real_snoc(ws, j as int);
        }
        let w = words[j].duplicate();
        proof {
            assert(word_views(res@.push(w)) =~= word_views(res@).push(w@));
        }
        res.push(w);
        let (g, j2) = next_real(&words, j + 1);
        if !check_skipped(&g, Some('"'), 1) {
            return Err(SyntaxErrorKind::SyntaxError);
        }
        if j2 < words.len() {
            return Err(SyntaxErrorKind::SyntaxError);
        }
        proof {
            lemma_next_real_bounds(ws, j + 1);
            lemma_filter_real_skip_empty(ws, j + 1, j2 as int);
            assert(ws.take(j2 as int) =~= ws);
            let rs = word_views(res@);
            lemma_decl_end_at(rs, d, 0);
        }
        return Ok(res);
    }
    let op = match words[j].get_op_code() {
        Some(op) => op,
        None => {
            return Err(SyntaxErrorKind::SyntaxError);
        },
    };
    proof {
        lemma_filter_real_snoc(ws, j as int);
    }
    let w = words[j].duplicate();
    proof {
        assert(word_views(res@.push(w)) =~= word_views(res@).push(w@));
    }
    res.push(w);
    let (g1, j1) = next_real(&words, j + 1);
    if !check_skipped(&g1, None, 0) {
        return Err(SyntaxErrorKind::SyntaxError);
    }
    proof {
        lemma_next_real_bounds(ws, j + 1);
        lemma_filter_real_skip_empty(ws, j + 1, j1 as int);
    }
    let mut ops: Vec<Word> = Vec::new();
    proof {
        assert(word_views(ops@) =~= Seq::<WordV>::empty());
    }
    if j1 == words.len() {
        match op.check_compatibility(&ops) {
            Ok(_) => {},
            Err(e) => {
                return Err(e);
            },
        }
        proof {
            assert(ws.take(j1 as int) =~= ws);
            let rs = word_views(res@);
            lemma_decl_end_at(rs, d, 0);
            assert(rs.skip(d + 1) =~= Seq::<WordV>::empty());
        }
        return Ok(res);
    }
    let w1 = words[j1].duplicate();
    proof {
        assert(word_views(ops@.push(w1)) =~= word_views(ops@).push(w1@));
    }
    ops.push(w1);
    let (g2, j2) = next_real(&words, j1 + 1);
    proof {
        lemma_next_real_bounds(ws, j1 + 1);
        assert(word_views(ops@) =~= seq![ws[j1 as int]]);
    }
    if j2 == words.len() {
        if !check_skipped(&g2, None, 0) {
            return Err(SyntaxErrorKind::SyntaxError);
        }
        match op.check_compatibility(&ops) {
            Ok(_) => {},
            Err(e) => {
                return Err(e);
            },
        }
        res.append(&mut ops);
        proof {
            lemma_filter_real_snoc(ws, j1 as int);
            lemma_filter_real_skip_empty(ws, j1 + 1, j2 as int);
            assert(ws.take(j2 as int) =~= ws);
            let rs = word_views(res@);
            assert(rs =~= spec_filter_real(ws.take(j1 as int)).push(ws[j1 as int]));
            lemma_decl_end_at(rs, d, 0);
            assert(rs.skip(d + 1) =~= seq![ws[j1 as int]]);
        }
        return Ok(res);
    }
    if check_skipped(&g2, None, 0) {
        return Err(SyntaxErrorKind::SyntaxError);
    }
    if !check_skipped(&g2, Some(','), 1) {
        return Err(SyntaxErrorKind::SyntaxError);
    }
    let w2 = words[j2].duplicate();
    proof {
        assert(word_views(ops@.push(w2)) =~= word_views(ops@).push(w2@));
    }
    ops.push(w2);
    proof {
        assert(word_views(ops@) =~= seq![ws[j1 as int], ws[j2 as int]]);
    }
    match op.check_compatibility(&ops) {
        Ok(_) => {},
        Err(e) => {
            return Err(e);
        },
    }
    let (g3, j3) = next_real(&words, j2 + 1);
    if !check_skipped(&g3, None, 0) {
        return Err(SyntaxErrorKind::SyntaxError);
    }
    if j3 < words.len() {
        return Err(SyntaxErrorKind::SyntaxError);
    }
    res.append(&mut ops);
    proof {
        lemma_next_real_bounds(ws, j2 + 1);
        lemma_filter_real_snoc(ws, j1 as int);
        lemma_filter_real_skip_empty(ws, j1 + 1, j2 as int);
        lemma_filter_real_snoc(ws, j2 as int);
        lemma_filter_real_skip_empty(ws, j2 + 1, j3 as int);
        assert(ws.take(j3 as int) =~= ws);
        let rs = word_views(res@);
        assert(rs =~= spec_filter_real(ws.take(j2 as int)).push(ws[j2 as int]));
        lemma_decl_end_at(rs, d, 0);
        assert(rs.skip(d + 1) =~= seq![ws[j1 as int], ws[j2 as int]]);
    }
    Ok(res)
}

} // verus!

verus! {

/// Every real word kept by filtering occurs in the original sequence.
proof fn lemma_filter_real_elements(ws: Seq<WordV>)
    ensures
        forall|i: int|
            0 <= i < spec_filter_real(ws).len() ==> ws.contains(#[trigger] spec_filter_real(ws)[i]),
    decreases ws.len(),
{
    if ws.len() > 0 {
        lemma_filter_real_elements(ws.drop_last());
        assert(forall|i: int|
            0 <= i < ws.drop_last().len() ==> ws[i] == #[trigger] ws.drop_last()[i]);
        assert(forall|i: int|
            0 <= i < ws.drop_last().len() && ws.drop_last().contains(#[trigger] ws.drop_last()[i])
                ==> ws.contains(ws.drop_last()[i]));
        assert forall|i: int| 0 <= i < spec_filter_real(ws).len() implies ws.contains(
            #[trigger] spec_filter_real(ws)[i],
        ) by {
            let f = spec_filter_real(ws);
            let fd = spec_filter_real(ws.drop_last());
            if i < fd.len() {
                let k = choose|k: int| 0 <= k < ws.drop_last().len() && ws.drop_last()[k] == fd[i];
                assert(ws[k] == fd[i]);
            } else {
                assert(f[i] == ws.last());
                assert(ws[ws.len() - 1] == ws.last());
            }
        }
    }
}

/// The names declared by the leading label declarations of a filtered line.
pub open spec fn spec_decl_labels(ws: Seq<WordV>) -> Seq<Seq<char>> {
    ws.take(spec_decl_end(ws)).map_values(|w: WordV| w.content->LabelDeclaration_0)
}

/// The byte size a line contributes to the output: nothing for an empty or
/// label-only line, the stored bytes for a string line, four bytes for an
/// instruction.
pub open spec fn spec_line_size(ws: Seq<WordV>) -> int {
    let d = spec_decl_end(ws);
    if d >= ws.len() {
        0
    } else if ws[d].content is Str {
        ws[d].content->Str_0.len() as int
    } else {
        4
    }
}

/// The views of a sequence of name vectors.
pub open spec fn name_views(s: Seq<Vec<char>>) -> Seq<Seq<char>> {
    s.map_values(|v: Vec<char>| v@)
}

/// The big-endian bytes of a 32-bit word.
pub open spec fn spec_be32(x: u32) -> Seq<u8> {
    seq![
        (x >> 24) as u8,
        ((x >> 16) & 0xff) as u8,
        ((x >> 8) & 0xff) as u8,
        (x & 0xff) as u8,
    ]
}

/// The big-endian bytes of a 32-bit word.
pub fn be32_bytes(x: u32) -> (r: Vec<u8>)
    ensures
        r@ == spec_be32(x),
{
    let mut r: Vec<u8> = Vec::new();
    r.push(#[verifier::truncate] ((x >> 24) as u8));
    r.push(#[verifier::truncate] (((x >> 16) & 0xff) as u8));
    r.push(#[verifier::truncate] (((x >> 8) & 0xff) as u8));
    r.push(#[verifier::truncate] ((x & 0xff) as u8));
    proof {
        assert(r@ =~= spec_be32(x));
    }
    r
}

/// The payload field of a register-or-immediate operand: a bare register
/// index, or the immediate flag at `flag_shift` over the low-order bits of
/// the number or resolved label address.
pub open spec fn spec_operand_field(w: WordV, labels: Map<Seq<char>, u64>, flag_shift: u32) -> u32 {
    match w.content {
        ContentV::Register(rg) => spec_register_index(rg) as u32,
        ContentV::Number(x) => (1u32 << flag_shift) | ((x as u32) & (((1u32 << flag_shift)
            - 1) as u32)),
        ContentV::Label(name) => (1u32 << flag_shift) | ((labels[name] as u32) & (((1u32
            << flag_shift) - 1) as u32)),
        _ => 0,
    }
}

/// Every label reference of the line is bound in the table.
pub open spec fn spec_line_labels_present(ws: Seq<WordV>, m: Map<Seq<char>, u64>) -> bool {
    forall|i: int|
        0 <= i < ws.len() ==> ((#[trigger] ws[i].content) matches ContentV::Label(name)
            ==> m.contains_key(name))
}

/// Encodes one register-or-immediate operand.
fn operand_field(w: &Word, labels: &LabelTable, flag_shift: u32) -> (r: u32)
    requires
        flag_shift == 23 || flag_shift == 26,
        w@.content is Register || w@.content is Number || w@.content is Label,
        w@.content matches ContentV::Label(name) ==> labels@.contains_key(name),
    ensures
        r == spec_operand_field(w@, labels@, flag_shift),
{
    proof {
        assert((1u32 << 23u32) == 0x0080_0000u32 && (1u32 << 26u32) == 0x0400_0000u32)
            by (bit_vector);
    }
    match &w.content {
        crate::word::WordContent::Register(rg) => rg.index() as u32,
        crate::word::WordContent::Number(x) => {
            let mask = (1u32 << flag_shift) - 1;
            (1u32 << flag_shift) | ((#[verifier::truncate] (*x as u32)) & mask)
        },
        crate::word::WordContent::Label(name) => {
            match labels.get(name) {
                Some(v) => {
                    let mask = (1u32 << flag_shift) - 1;
                    (1u32 << flag_shift) | ((#[verifier::truncate] (v as u32)) & mask)
                },
                None => {
                    proof {
                        assert(false);
                    }
                    0
                },
            }
        },
        _ => {
            proof {
                assert(false);
            }
            0
        },
    }
}

/// The 32-bit instruction word of an opcode line: the opcode value in bits
/// 31 to 27, then the operand fields.  A two-operand line carries its first
/// register in bits 26 to 24 and its second operand in the low 24 bits; a
/// one-operand line carries its operand in the low 27 bits, except for the
/// jump family, whose sub-code takes bits 26 to 24.
pub open spec fn spec_instr_word(
    op: OpCode,
    operands: Seq<WordV>,
    labels: Map<Seq<char>, u64>,
) -> u32 {
    let base = (spec_op_value(op) as u32) << 27;
    if operands.len() == 1 {
        match op {
            OpCode::JMP(j) => base | ((spec_jcode_value(j) as u32) << 24) | spec_operand_field(
                operands[0],
                labels,
                23,
            ),
            _ => base | spec_operand_field(operands[0], labels, 26),
        }
    } else if operands.len() == 2 {
        base | ((spec_register_index(operands[0].content->Register_0) as u32) << 24)
            | spec_operand_field(operands[1], labels, 23)
    } else {
        base
    }
}

/// The bytes a line contributes to the output stream: nothing for an empty
/// or label-only line, the stored bytes for a string line, the big-endian
/// instruction word otherwise.
pub open spec fn spec_encode_line(ws: Seq<WordV>, labels: Map<Seq<char>, u64>) -> Seq<u8> {
    let d = spec_decl_end(ws);
    if d >= ws.len() {
        Seq::empty()
    } else if ws[d].content is Str {
        ws[d].content->Str_0
    } else if ws[d].content is OpCode {
        spec_be32(spec_instr_word(ws[d].content->OpCode_0, ws.skip(d + 1), labels))
    } else {
        Seq::empty()
    }
}

/// A validated line: label declarations followed by at most one string
/// literal or one opcode with its operands.
#[derive(Debug)]
pub struct Line {
    instruction: Vec<Word>,
}

impl View for Line {
    type V = Seq<WordV>;

    closed spec fn view(&self) -> Seq<WordV> {
        word_views(self.instruction@)
    }
}

impl Line {
    /// Builds a line from the words of one source line, validating the
    /// separator grammar and the operand shape.
    pub fn from_words(words: Vec<Word>) -> (r: Result<Line, SyntaxErrorKind>)
        ensures
            match r {
                Ok(l) => spec_line_extract(word_views(words@)) == Result::<
                    Seq<WordV>,
                    ErrorKindV,
                >::Ok(l@) && spec_line_shape(l@) && (spec_strs_nul(word_views(words@))
                    ==> spec_strs_nul(l@)),
                Err(e) => spec_line_extract(word_views(words@)) == Result::<
                    Seq<WordV>,
                    ErrorKindV,
                >::Err(e@),
            },
    {
        let ghost ws0 = word_views(words@);
        match extract(words) {
            Ok(v) => {
                proof {
                    let vv = word_views(v@);
                    assert(vv == spec_filter_real(ws0));
                    lemma_filter_real_elements(ws0);
                    if spec_strs_nul(ws0) {
                        assert forall|i: int|
                            0 <= i < vv.len() implies ((#[trigger] vv[i].content) matches
                            ContentV::Str(b) ==> b.len() >= 1 && b[b.len() - 1] == 0) by {
                            assert(ws0.contains(vv[i]));
                            let k = choose|k: int| 0 <= k < ws0.len() && ws0[k] == vv[i];
                            assert(ws0[k].content == vv[i].content);
                        }
                    }
                }
                Ok(Line { instruction: v })
            },
            Err(e) => Err(e),
        }
    }

    /// The words of the line.
    pub fn get(&self) -> (r: &Vec<Word>)
        ensures
            word_views(r@) == self@,
    {
        &self.instruction
    }
}

} // verus!

verus! {

proof fn lemma_decl_end_bounds(ws: Seq<WordV>, i: int)
    requires
        0 <= i <= ws.len(),
    ensures
        i <= spec_decl_end_from(ws, i) <= ws.len(),
        spec_decl_end_from(ws, i) < ws.len() ==> !(ws[spec_decl_end_from(ws, i)].content
            is LabelDeclaration),
        forall|p: int|
            i <= p < spec_decl_end_from(ws, i) ==> (#[trigger] ws[p].content) is LabelDeclaration,
    decreases ws.len() - i,
{
    if i < ws.len() && ws[i].content is LabelDeclaration {
        lemma_decl_end_bounds(ws, i + 1);
    }
}

impl Line {
    /// The labels this line declares, and the byte size it contributes to
    /// the output stream.
    #[verifier::loop_isolation(false)]
    pub fn get_line_info(&self) -> (r: (Vec<Vec<char>>, usize))
        ensures
            name_views(r.0@) == spec_decl_labels(self@),
            r.1 == spec_line_size(self@),
    {
        let ghost ws = self@;
        proof {
            assert(forall|p: int| 0 <= p < self.instruction@.len() ==> ws[p] == self.instruction@[p]@);
            lemma_decl_end_bounds(ws, 0);
        }
        let mut names: Vec<Vec<char>> = Vec::new();
        let mut i: usize = 0;
        proof {
            assert(name_views(names@) =~= ws.take(0).map_values(
                |w: WordV| w.content->LabelDeclaration_0,
            ));
        }
        while i < self.instruction.len() && self.instruction[i].is_label_decl()
            invariant
                0 <= i <= ws.len(),
                forall|p: int| 0 <= p < i ==> (#[trigger] ws[p].content) is LabelDeclaration,
                name_views(names@) == ws.take(i as int).map_values(
                    |w: WordV| w.content->LabelDeclaration_0,
                ),
            decreases ws.len() - i,
        {
            match &self.instruction[i].content {
                crate::word::WordContent::LabelDeclaration(nm) => {
                    let copy = copy_chars(nm);
                    proof {
                        assert(name_views(names@.push(copy)) =~= name_views(names@).push(copy@));
                        assert(ws.take(i + 1).map_values(|w: WordV| w.content->LabelDeclaration_0)
                            =~= ws.take(i as int).map_values(
                            |w: WordV| w.content->LabelDeclaration_0,
                        ).push(ws[i as int].content->LabelDeclaration_0));
                    }
                    names.push(copy);
                },
                _ => {
                    proof {
                        assert(false);
                    }
                },
            }
            i = i + 1;
        }
        proof {
            lemma_decl_end_at(ws, i as int, 0);
        }
        if i == self.instruction.len() {
            return (names, 0);
        }
        let size: usize = match self.instruction[i].get_str() {
            Some(s) => s.len(),
            None => 4,
        };
        (names, size)
    }

    /// Encodes this line for the output stream: nothing for an empty or
    /// label-only line, the stored bytes for a string line, the big-endian
    /// 32-bit instruction word otherwise.
    #[verifier::loop_isolation(false)]
    pub fn get_binary_instruction(&self, labels: &LabelTable) -> (r: Vec<u8>)
        requires
            spec_line_shape(self@),
            spec_line_labels_present(self@, labels@),
        ensures
            r@ == spec_encode_line(self@, labels@),
    {
        let ghost ws = self@;
        proof {
            assert(forall|p: int| 0 <= p < self.instruction@.len() ==> ws[p] == self.instruction@[p]@);
            lemma_decl_end_bounds(ws, 0);
        }
        let mut i: usize = 0;
        while i < self.instruction.len() && self.instruction[i].is_label_decl()
            invariant
                0 <= i <= ws.len(),
                forall|p: int| 0 <= p < i ==> (#[trigger] ws[p].content) is LabelDeclaration,
            decreases ws.len() - i,
        {
            i = i + 1;
        }
        proof {
            lemma_decl_end_at(ws, i as int, 0);
        }
        if i == self.instruction.len() {
            return Vec::new();
        }
        if let Some(s) = self.instruction[i].get_str() {
            return crate::word::copy_bytes(s);
        }
        let op = match self.instruction[i].get_op_code() {
            Some(op) => op,
            None => {
                proof {
                    assert(false);
                }
                return Vec::new();
            },
        };
        let ghost d = i as int;
        let n_ops = self.instruction.len() - i - 1;
        let mut instr: u32 = (op.value() as u32) << 27;
        if n_ops == 1 {
            proof {
                assert(ws.skip(d + 1) =~= seq![ws[d + 1]]);
            }
            let w1 = &self.instruction[i + 1];
            match op {
                OpCode::JMP(jc) => {
                    instr = instr | ((jc.value() as u32) << 24) | operand_field(w1, labels, 23);
                },
                _ => {
                    instr = instr | operand_field(w1, labels, 26);
                },
            }
        } else if n_ops == 2 {
            proof {
                assert(ws.skip(d + 1) =~= seq![ws[d + 1], ws[d + 2]]);
            }
            let w1 = &self.instruction[i + 1];
            let w2 = &self.instruction[i + 2];
            let rg = match w1.get_reg() {
                Some(rg) => rg,
                None => {
                    proof {
                        assert(false);
                    }
                    crate::registers::Register::R0
                },
            };
            instr = instr | ((rg.index() as u32) << 24) | operand_field(w2, labels, 23);
        } else {
            proof {
                assert(ws.skip(d + 1).len() != 1 && ws.skip(d + 1).len() != 2);
            }
        }
        be32_bytes(instr)
    }
}

/// Every instruction line encodes to exactly four bytes, and four is also
/// the byte size the address resolver accounts for it.
pub proof fn lemma_instruction_line_four_bytes(ws: Seq<WordV>, labels: Map<Seq<char>, u64>)
    requires
        spec_line_shape(ws),
        spec_decl_end(ws) < ws.len(),
        ws[spec_decl_end(ws)].content is OpCode,
    ensures
        spec_encode_line(ws, labels).len() == 4,
        spec_line_size(ws) == 4,
{
}

/// Every string line encodes to exactly its stored bytes — the literal's
/// UTF-8 bytes plus the trailing NUL — so it contributes `len` bytes ending
/// in zero, and `len` is also the byte size the address resolver accounts.
pub proof fn lemma_string_line_bytes(ws: Seq<WordV>, labels: Map<Seq<char>, u64>)
    requires
        spec_line_shape(ws),
        spec_strs_nul(ws),
        spec_decl_end(ws) < ws.len(),
        ws[spec_decl_end(ws)].content is Str,
    ensures
        spec_encode_line(ws, labels) == ws[spec_decl_end(ws)].content->Str_0,
        spec_encode_line(ws, labels).len() == spec_line_size(ws),
        spec_encode_line(ws, labels).len() >= 1,
        spec_encode_line(ws, labels).last() == 0,
{
    lemma_decl_end_bounds(ws, 0);
}

/// The bytes a line emits always match the byte size the address resolver
/// accounts for it.
pub proof fn lemma_line_bytes_match_size(ws: Seq<WordV>, labels: Map<Seq<char>, u64>)
    requires
        spec_line_shape(ws),
    ensures
        spec_encode_line(ws, labels).len() == spec_line_size(ws),
{
    lemma_decl_end_bounds(ws, 0);
    let d = spec_decl_end(ws);
    if d < ws.len() {
        if ws[d].content is Str {
        } else if ws[d].content is OpCode {
        } else {
            assert(false);
        }
    }
}

} // verus!

verus! {

/// Whitespace arrangement is immaterial: two word sequences that carry the
/// same real words and both pass validation build the same line — and hence
/// the same declared labels, byte size and encoding.
pub proof fn lemma_whitespace_immaterial(w1: Seq<WordV>, w2: Seq<WordV>)
    requires
        spec_line_extract(w1) is Ok,
        spec_line_extract(w2) is Ok,
        spec_filter_real(w1) == spec_filter_real(w2),
    ensures
        spec_line_extract(w1) == spec_line_extract(w2),
{
}

} // verus!
