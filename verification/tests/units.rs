use nzm_asm::errors::{cast_result, is_valid_label_name, SyntaxErrorKind};
use nzm_asm::labels::LabelTable;
use nzm_asm::line::Line;
use nzm_asm::op_codes::{JCode, OpCode};
use nzm_asm::pre_processor::pre_processing;
use nzm_asm::registers::Register;
use nzm_asm::stack::Stack;
use nzm_asm::word::{Word, WordBuilder, WordContent, WordKind, WordRequest, WordSeparator};

fn chars(s: &str) -> Vec<char> {
    s.chars().collect()
}

/// Feeds a whole source line to a fresh tokenizer and collects the words.
fn tokenize_line(src: &str) -> Vec<Word> {
    let mut builder = WordBuilder::new().unwrap();
    let mut words = Vec::new();
    for c in src.chars() {
        match builder.add_char(c).unwrap() {
            WordRequest::Continue => {}
            WordRequest::PushWord(w) => words.push(w),
            WordRequest::PushLine(w) => {
                words.push(w);
                return words;
            }
        }
    }
    words
}

#[test]
fn register_lookup() {
    assert_eq!(Register::from_name(&chars("r0")), Some(Register::R0));
    assert_eq!(Register::from_name(&chars("r7")), Some(Register::R7));
    assert_eq!(Register::from_name(&chars("rpc")), Some(Register::PC));
    assert_eq!(Register::from_name(&chars("rcond")), Some(Register::COND));
    assert_eq!(Register::from_name(&chars("r8")), None);
    assert_eq!(Register::from_name(&chars("R0")), None);
    assert_eq!(Register::PC.index(), 8);
    assert_eq!(Register::COND.index(), 9);
    assert_eq!(Register::R5.index(), 5);
}

#[test]
fn opcode_lookup_and_values() {
    assert_eq!(OpCode::from_mnemonic(&chars("add")), Some(OpCode::ADD));
    assert_eq!(OpCode::from_mnemonic(&chars("jle")), Some(OpCode::JMP(JCode::JLE)));
    assert_eq!(OpCode::from_mnemonic(&chars("rd")), Some(OpCode::READ));
    assert_eq!(OpCode::from_mnemonic(&chars("wr")), Some(OpCode::WRITE));
    assert_eq!(OpCode::from_mnemonic(&chars("nope")), None);
    assert_eq!(OpCode::HALT.value(), 23);
    assert_eq!(OpCode::JMP(JCode::JHE).value(), 12);
    assert_eq!(JCode::JHE.value(), 5);
    assert_eq!(OpCode::SWAP.value(), 26);
}

#[test]
fn error_codes_match_table() {
    assert_eq!(SyntaxErrorKind::EmptyText.code(), 1);
    assert_eq!(SyntaxErrorKind::InvalidSingleQuote(vec![]).code(), 2);
    assert_eq!(SyntaxErrorKind::InvalidBackSlash('x').code(), 3);
    assert_eq!(SyntaxErrorKind::BackSlashNeeded('x').code(), 4);
    assert_eq!(SyntaxErrorKind::DoubleQuoteNeverEnded.code(), 5);
    assert_eq!(SyntaxErrorKind::SingleQuoteNeverEnded.code(), 6);
    assert_eq!(SyntaxErrorKind::EndOfLine.code(), 7);
    assert_eq!(SyntaxErrorKind::InvalidRegister(vec![]).code(), 8);
    assert_eq!(SyntaxErrorKind::InvalidOpCode(vec![]).code(), 9);
    assert_eq!(SyntaxErrorKind::InvalidNumber(vec![]).code(), 10);
    assert_eq!(SyntaxErrorKind::InvalidWord(vec![]).code(), 11);
    assert_eq!(SyntaxErrorKind::InvalidLabelName(vec![]).code(), 12);
    assert_eq!(SyntaxErrorKind::InvalidFirstChar('!').code(), 13);
    assert_eq!(SyntaxErrorKind::LabelDeclaredTwice(vec![]).code(), 14);
    assert_eq!(SyntaxErrorKind::LabelIsNotDeclared(vec![]).code(), 15);
    assert_eq!(SyntaxErrorKind::SyntaxError.code(), 16);
    assert_eq!(SyntaxErrorKind::ExpectedRegImmOrReg(OpCode::MOV).code(), 17);
    assert_eq!(SyntaxErrorKind::ExpectedReg(OpCode::POP).code(), 18);
    assert_eq!(SyntaxErrorKind::ExpectedRegOrImm(OpCode::PUSH).code(), 19);
    assert_eq!(SyntaxErrorKind::ExpectedNothing(OpCode::HALT).code(), 20);
    assert_eq!(SyntaxErrorKind::NoMain.code(), 21);
}

#[test]
fn label_name_validity() {
    assert!(is_valid_label_name(&chars("loop")));
    assert!(is_valid_label_name(&chars("x")));
    assert!(!is_valid_label_name(&chars("")));
}

#[test]
fn cast_result_attributes_line() {
    let ok: Result<u32, SyntaxErrorKind> = Ok(7);
    assert_eq!(cast_result(ok, 3).unwrap(), 7);
    let err: Result<u32, SyntaxErrorKind> = Err(SyntaxErrorKind::SyntaxError);
    let e = cast_result(err, 3).unwrap_err();
    assert_eq!(e.line, 3);
    assert_eq!(e.err, SyntaxErrorKind::SyntaxError);
}

#[test]
fn tokenizer_classifies_words() {
    let words = tokenize_line("main: mov r1, 5\n");
    let contents: Vec<&WordContent> = words.iter().map(|w| &w.content).collect();
    assert_eq!(words.len(), 6);
    assert_eq!(*contents[0], WordContent::LabelDeclaration(chars("main")));
    assert_eq!(*contents[1], WordContent::Empty);
    assert_eq!(*contents[2], WordContent::OpCode(OpCode::MOV));
    assert_eq!(*contents[3], WordContent::Register(Register::R1));
    assert_eq!(*contents[4], WordContent::Empty);
    assert_eq!(*contents[5], WordContent::Number(5));
}

#[test]
fn tokenizer_char_literal_is_code_point() {
    let words = tokenize_line("push 'A'\n");
    assert!(words.iter().any(|w| w.content == WordContent::Number(65)));
}

#[test]
fn tokenizer_string_literal_gets_nul() {
    let words = tokenize_line("\"hi\"\n");
    let strs: Vec<&Word> = words.iter().filter(|w| w.is_str()).collect();
    assert_eq!(strs.len(), 1);
    assert_eq!(strs[0].get_str().unwrap(), &vec![b'h', b'i', 0x00]);
}

#[test]
fn tokenizer_comment_swallows_to_newline() {
    let words = tokenize_line("halt ; mov r0, 1\n");
    assert!(words.iter().any(|w| w.content == WordContent::OpCode(OpCode::HALT)));
    assert!(!words.iter().any(|w| w.content == WordContent::OpCode(OpCode::MOV)));
}

#[test]
fn tokenizer_end_of_file_flushes_word() {
    let mut builder = WordBuilder::new().unwrap();
    for c in "abc".chars() {
        match builder.add_char(c).unwrap() {
            WordRequest::Continue => {}
            _ => panic!("word ended early"),
        }
    }
    let word = builder.end_of_file().unwrap();
    assert_eq!(word.content, WordContent::Label(chars("abc")));
}

#[test]
fn tokenizer_end_of_file_rejects_open_quote() {
    let mut builder = WordBuilder::new().unwrap();
    for c in "\"oops".chars() {
        builder.add_char(c).unwrap();
    }
    assert_eq!(builder.end_of_file().unwrap_err(), SyntaxErrorKind::DoubleQuoteNeverEnded);
}

#[test]
fn tokenizer_extract_empty_word() {
    let mut builder = WordBuilder::new().unwrap();
    let word = builder.extract(WordSeparator::EndOfLine, '\0').unwrap();
    assert_eq!(word.content, WordContent::Empty);
}

#[test]
fn word_predicates() {
    let reg = Word::new(WordContent::Register(Register::R2), chars(" r2,"), WordSeparator::Comma);
    assert!(reg.is_reg());
    assert!(reg.is_reg_or_imm());
    assert!(!reg.is_str());
    assert!(!reg.is_label_decl());
    assert_eq!(reg.get_reg(), Some(Register::R2));
    assert_eq!(reg.get_op_code(), None);

    let num = Word::new(WordContent::Number(9), chars(" 9,"), WordSeparator::Comma);
    assert!(num.is_reg_or_imm());
    assert!(!num.is_reg());

    let lab = Word::new(WordContent::Label(chars("x")), chars(" x "), WordSeparator::Space);
    assert!(lab.is_reg_or_imm());

    let decl = Word::new(
        WordContent::LabelDeclaration(chars("x")),
        chars(" x:"),
        WordSeparator::Colon,
    );
    assert!(decl.is_label_decl());

    let s = Word::new(WordContent::Str(vec![0]), chars("\"\"\""), WordSeparator::DoubleQuote);
    assert!(s.is_str());
    assert_eq!(s.get_str(), Some(&vec![0u8]));
}

#[test]
fn word_kind_quotes() {
    assert!(WordKind::DoubleQuote.is_quote());
    assert!(WordKind::SingleQuote.is_quote());
    assert!(!WordKind::Unknown.is_quote());
    assert!(!WordKind::Number.is_quote());
    assert!(!WordKind::LabelDeclaration.is_quote());
}

#[test]
fn compatibility_rules() {
    let reg = Word::new(WordContent::Register(Register::R0), vec![], WordSeparator::Space);
    let num = Word::new(WordContent::Number(1), vec![], WordSeparator::Space);
    let two = vec![
        Word::new(WordContent::Register(Register::R0), vec![], WordSeparator::Space),
        Word::new(WordContent::Number(1), vec![], WordSeparator::Space),
    ];
    assert!(OpCode::MOV.check_compatibility(&two).is_ok());
    assert!(OpCode::HALT.check_compatibility(&vec![]).is_ok());
    assert!(OpCode::PUSH.check_compatibility(&vec![num]).is_ok());
    assert!(OpCode::POP.check_compatibility(&vec![reg]).is_ok());
    let one = vec![Word::new(WordContent::Number(1), vec![], WordSeparator::Space)];
    assert_eq!(
        OpCode::MOV.check_compatibility(&one).unwrap_err(),
        SyntaxErrorKind::ExpectedRegImmOrReg(OpCode::MOV)
    );
    let wide = vec![
        Word::new(WordContent::Register(Register::PC), vec![], WordSeparator::Space),
        Word::new(WordContent::Number(1), vec![], WordSeparator::Space),
    ];
    assert_eq!(
        OpCode::MOV.check_compatibility(&wide).unwrap_err(),
        SyntaxErrorKind::ExpectedRegImmOrReg(OpCode::MOV)
    );
}

#[test]
fn line_info_and_encoding() {
    let words = tokenize_line("main: halt\n");
    let line = Line::from_words(words).unwrap();
    let (labels, size) = line.get_line_info();
    assert_eq!(labels, vec![chars("main")]);
    assert_eq!(size, 4);
    assert_eq!(line.get().len(), 2);

    let mut table = LabelTable::new();
    table.insert(chars("main"), 0);
    assert_eq!(line.get_binary_instruction(&table), vec![0xB8, 0x00, 0x00, 0x00]);
}

#[test]
fn line_string_size_counts_nul() {
    let words = tokenize_line("msg: \"hi\"\n");
    let line = Line::from_words(words).unwrap();
    let (labels, size) = line.get_line_info();
    assert_eq!(labels, vec![chars("msg")]);
    assert_eq!(size, 3);
    let table = LabelTable::new();
    assert_eq!(line.get_binary_instruction(&table), vec![b'h', b'i', 0x00]);
}

#[test]
fn line_rejects_bad_grammar() {
    let words = tokenize_line("mov r0 1\n");
    assert_eq!(Line::from_words(words).unwrap_err(), SyntaxErrorKind::SyntaxError);
}

#[test]
fn label_table_insert_and_get() {
    let mut table = LabelTable::new();
    assert!(!table.contains(&chars("a")));
    assert_eq!(table.get(&chars("a")), None);
    assert!(!table.insert(chars("a"), 1));
    assert!(table.contains(&chars("a")));
    assert_eq!(table.get(&chars("a")), Some(1));
    assert!(table.insert(chars("a"), 9));
    assert_eq!(table.get(&chars("a")), Some(9));
    assert!(!table.insert(chars("b"), 2));
    assert_eq!(table.get(&chars("a")), Some(9));
    assert_eq!(table.get(&chars("b")), Some(2));
}

#[test]
fn pre_processing_splits_lines() {
    let text = chars("mov r0, 1\nhalt\n");
    let pre = pre_processing(&text).unwrap();
    let lines = pre.lines();
    assert_eq!(lines.len(), 2);
    assert_eq!(lines[0].len(), 4);
    assert!(lines[0].iter().any(|w| w.content == WordContent::OpCode(OpCode::MOV)));
    assert!(lines[1].iter().any(|w| w.content == WordContent::OpCode(OpCode::HALT)));
}

#[test]
fn pre_processing_rejects_empty_text() {
    assert_eq!(pre_processing(&vec![]).unwrap_err(), SyntaxErrorKind::EmptyText);
}

#[test]
fn stack_operations() {
    let mut s: Stack<u32> = Stack::new();
    assert!(s.is_empty());
    assert_eq!(s.size(), 0);
    assert_eq!(s.pop(), None);
    assert_eq!(s.val(), None);
    s.push(1);
    s.push(2);
    assert_eq!(s.size(), 2);
    assert_eq!(s.val(), Some(&2));
    assert_eq!(s.pop(), Some(2));
    assert_eq!(s.val(), Some(&1));
    s.change_top(7);
    assert_eq!(s.pop(), Some(7));
    assert!(s.is_empty());

    let mut s2 = Stack::init(5u32);
    assert_eq!(s2.size(), 1);
    if let Some(top) = s2.val_mut() {
        *top = 6;
    }
    assert_eq!(s2.pop(), Some(6));
}
