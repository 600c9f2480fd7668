use nzm_asm::assembler::assemble;
use nzm_asm::errors::{SyntaxError, SyntaxErrorKind};
use nzm_asm::op_codes::OpCode;

fn assemble_text(src: &str) -> Result<Vec<u8>, SyntaxError> {
    let chars: Vec<char> = src.chars().collect();
    assemble(&chars)
}

fn chars(s: &str) -> Vec<char> {
    s.chars().collect()
}

#[test]
fn halt_program() {
    let out = assemble_text("main: halt\n").unwrap();
    assert_eq!(out, vec![0x00, 0x00, 0x00, 0x00, 0xB8, 0x00, 0x00, 0x00]);
}

#[test]
fn mov_and_halt() {
    let out = assemble_text("main: mov r1, 5\n      halt\n").unwrap();
    assert_eq!(
        out,
        vec![0x00, 0x00, 0x00, 0x00, 0x91, 0x80, 0x00, 0x05, 0xB8, 0x00, 0x00, 0x00]
    );
}

#[test]
fn jump_to_forward_label() {
    let out = assemble_text("main: jmp end\nend:  halt\n").unwrap();
    assert_eq!(
        out,
        vec![0x00, 0x00, 0x00, 0x00, 0x60, 0x80, 0x00, 0x04, 0xB8, 0x00, 0x00, 0x00]
    );
}

#[test]
fn string_line_bytes_and_nul() {
    let out = assemble_text("main: halt\nmsg:  \"hi\"\n").unwrap();
    assert_eq!(
        out,
        vec![0x00, 0x00, 0x00, 0x00, 0xB8, 0x00, 0x00, 0x00, b'h', b'i', 0x00]
    );
    assert_eq!(out.len(), 11);
    assert_eq!(*out.last().unwrap(), 0x00);
}

#[test]
fn push_char_literal_without_trailing_newline() {
    let out = assemble_text("main: push 'A'").unwrap();
    assert_eq!(out, vec![0x00, 0x00, 0x00, 0x00, 0x74, 0x00, 0x00, 0x41]);
}

#[test]
fn comments_do_not_change_output() {
    let plain = assemble_text("main: halt\n").unwrap();
    let commented = assemble_text("; before\nmain: halt\n; after\n").unwrap();
    assert_eq!(plain, commented);
    let trailing = assemble_text("main: halt ; same line\n").unwrap();
    assert_eq!(plain, trailing);
}

#[test]
fn blank_lines_do_not_change_output() {
    let plain = assemble_text("main: halt\n").unwrap();
    let spaced = assemble_text("\n\nmain: halt\n\n\n").unwrap();
    assert_eq!(plain, spaced);
}

#[test]
fn whitespace_reordering_does_not_change_output() {
    let a = assemble_text("main: mov r1, 5\n").unwrap();
    let b = assemble_text("main:mov r1, 5\n").unwrap();
    let c = assemble_text("main:    mov    r1,   5   \n").unwrap();
    assert_eq!(a, b);
    assert_eq!(a, c);
}

#[test]
fn header_is_main_address() {
    // `main` sits after one 4-byte instruction, so the header reads 4.
    let out = assemble_text("start: halt\nmain: halt\n").unwrap();
    assert_eq!(
        out,
        vec![0x00, 0x00, 0x00, 0x04, 0xB8, 0x00, 0x00, 0x00, 0xB8, 0x00, 0x00, 0x00]
    );
}

#[test]
fn label_addresses_follow_running_sizes() {
    // msg sits right after the 4-byte mov, so the operand payload reads 4.
    let out = assemble_text("main: mov r1, msg\nmsg: \"hi\"\n").unwrap();
    assert_eq!(
        out,
        vec![0x00, 0x00, 0x00, 0x00, 0x91, 0x80, 0x00, 0x04, b'h', b'i', 0x00]
    );
}

#[test]
fn label_address_after_string_line() {
    // The string contributes 3 bytes, so the label after it sits at 7.
    let out = assemble_text("main: jmp end\nmsg: \"hi\"\nend: halt\n").unwrap();
    assert_eq!(
        out,
        vec![
            0x00, 0x00, 0x00, 0x00, 0x60, 0x80, 0x00, 0x07, b'h', b'i', 0x00, 0xB8, 0x00, 0x00,
            0x00
        ]
    );
}

#[test]
fn string_with_escapes() {
    let out = assemble_text("main: halt\nmsg: \"a\\n\\\"\\0\"\n").unwrap();
    assert_eq!(
        out,
        vec![0x00, 0x00, 0x00, 0x00, 0xB8, 0x00, 0x00, 0x00, b'a', 0x0A, b'"', 0x00, 0x00]
    );
}

#[test]
fn string_with_multibyte_character() {
    let out = assemble_text("main: halt\nmsg: \"\u{e9}\"\n").unwrap();
    assert_eq!(
        out,
        vec![0x00, 0x00, 0x00, 0x00, 0xB8, 0x00, 0x00, 0x00, 0xC3, 0xA9, 0x00]
    );
}

#[test]
fn empty_string_literal_is_one_nul_byte() {
    let out = assemble_text("main: halt\nmsg: \"\"\n").unwrap();
    assert_eq!(out, vec![0x00, 0x00, 0x00, 0x00, 0xB8, 0x00, 0x00, 0x00, 0x00]);
}

#[test]
fn escaped_char_literal() {
    // A char literal's closing quote seeds the next word, so the literal
    // can only stand where no further separator grammar follows it.
    let out = assemble_text("main: push '\\n'").unwrap();
    assert_eq!(out, vec![0x00, 0x00, 0x00, 0x00, 0x74, 0x00, 0x00, 0x0A]);
}

#[test]
fn quoted_backslash_literal() {
    let out = assemble_text("main: push '\\\\'").unwrap();
    assert_eq!(out, vec![0x00, 0x00, 0x00, 0x00, 0x74, 0x00, 0x00, 0x5C]);
}

#[test]
fn wide_register_as_payload_operand() {
    // rpc (index 8) fits the wide one-operand payload field.
    let out = assemble_text("main: push rpc\n").unwrap();
    assert_eq!(out, vec![0x00, 0x00, 0x00, 0x00, 0x70, 0x00, 0x00, 0x08]);
}

#[test]
fn pop_register() {
    let out = assemble_text("main: pop r3\n").unwrap();
    assert_eq!(out, vec![0x00, 0x00, 0x00, 0x00, 0x78, 0x00, 0x00, 0x03]);
}

#[test]
fn two_register_operands() {
    let out = assemble_text("main: add r0, r1\n").unwrap();
    assert_eq!(out, vec![0x00, 0x00, 0x00, 0x00, 0x00, 0x00, 0x00, 0x01]);
}

#[test]
fn jump_subcodes() {
    let out = assemble_text("main: je main\n").unwrap();
    assert_eq!(out, vec![0x00, 0x00, 0x00, 0x00, 0x61, 0x80, 0x00, 0x00]);
    let out = assemble_text("main: jhe main\n").unwrap();
    assert_eq!(out, vec![0x00, 0x00, 0x00, 0x00, 0x65, 0x80, 0x00, 0x00]);
}

#[test]
fn label_only_line_has_no_size() {
    let out = assemble_text("main:\nhalt\n").unwrap();
    assert_eq!(out, vec![0x00, 0x00, 0x00, 0x00, 0xB8, 0x00, 0x00, 0x00]);
}

#[test]
fn largest_number_fits() {
    // 2147483647 truncates to the 26-bit payload of a one-operand line.
    let out = assemble_text("main: push 2147483647\n").unwrap();
    assert_eq!(out, vec![0x00, 0x00, 0x00, 0x00, 0x77, 0xFF, 0xFF, 0xFF]);
}

#[test]
fn empty_input_is_rejected() {
    let err = assemble_text("").unwrap_err();
    assert_eq!(err.line, 0);
    assert_eq!(err.err, SyntaxErrorKind::EmptyText);
    assert_eq!(err.code(), 1);
}

#[test]
fn unterminated_double_quote() {
    let err = assemble_text("main: \"abc").unwrap_err();
    assert_eq!(err.line, 1);
    assert_eq!(err.err, SyntaxErrorKind::DoubleQuoteNeverEnded);
    assert_eq!(err.code(), 5);
}

#[test]
fn unterminated_single_quote() {
    let err = assemble_text("main: 'a").unwrap_err();
    assert_eq!(err.line, 1);
    assert_eq!(err.err, SyntaxErrorKind::SingleQuoteNeverEnded);
    assert_eq!(err.code(), 6);
}

#[test]
fn duplicate_label_on_second_occurrence_line() {
    let err = assemble_text("foo: halt\nmain: halt\nfoo: halt\n").unwrap_err();
    assert_eq!(err.line, 3);
    assert_eq!(err.err, SyntaxErrorKind::LabelDeclaredTwice(chars("foo")));
    assert_eq!(err.code(), 14);
}

#[test]
fn undeclared_label_on_reference_line() {
    let err = assemble_text("main: halt\njmp nowhere\n").unwrap_err();
    assert_eq!(err.line, 2);
    assert_eq!(err.err, SyntaxErrorKind::LabelIsNotDeclared(chars("nowhere")));
    assert_eq!(err.code(), 15);
}

#[test]
fn missing_main_surfaces_before_emission() {
    let err = assemble_text("start: halt\n").unwrap_err();
    assert_eq!(err.line, 0);
    assert_eq!(err.err, SyntaxErrorKind::NoMain);
}

#[test]
fn number_outside_i32_range() {
    let err = assemble_text("main: push 2147483648\n").unwrap_err();
    assert_eq!(err.line, 1);
    assert_eq!(err.err, SyntaxErrorKind::InvalidNumber(chars("2147483648")));
    assert_eq!(err.code(), 10);
}

#[test]
fn invalid_backslash_escape() {
    let err = assemble_text("main: push '\\x'\n").unwrap_err();
    assert_eq!(err.line, 1);
    assert_eq!(err.err, SyntaxErrorKind::InvalidBackSlash('x'));
    assert_eq!(err.code(), 3);
}

#[test]
fn invalid_first_char() {
    let err = assemble_text("main: push 5@\n").unwrap_err();
    assert_eq!(err.line, 1);
    assert_eq!(err.err, SyntaxErrorKind::InvalidFirstChar('@'));
    assert_eq!(err.code(), 13);
}

#[test]
fn invalid_single_quote_contents() {
    let err = assemble_text("main: push 'ab'\n").unwrap_err();
    assert_eq!(err.line, 1);
    assert_eq!(err.err, SyntaxErrorKind::InvalidSingleQuote(chars("'ab'")));
    assert_eq!(err.code(), 2);
}

#[test]
fn missing_comma_between_operands() {
    let err = assemble_text("main: mov r0 1\n").unwrap_err();
    assert_eq!(err.line, 1);
    assert_eq!(err.err, SyntaxErrorKind::SyntaxError);
    assert_eq!(err.code(), 16);
}

#[test]
fn junk_after_string_literal() {
    let err = assemble_text("main: halt\nmsg: \"hi\" r0\n").unwrap_err();
    assert_eq!(err.line, 2);
    assert_eq!(err.err, SyntaxErrorKind::SyntaxError);
}

#[test]
fn operand_after_complete_instruction() {
    let err = assemble_text("main: mov r0, 1 r2\n").unwrap_err();
    assert_eq!(err.line, 1);
    assert_eq!(err.err, SyntaxErrorKind::SyntaxError);
}

#[test]
fn error_kind_attribution_line() {
    let err = assemble_text("main: halt\n\nmov r0 1\n").unwrap_err();
    assert_eq!(err.line, 3);
    assert_eq!(err.err, SyntaxErrorKind::SyntaxError);
}

#[test]
fn expected_nothing() {
    let err = assemble_text("main: halt r0\n").unwrap_err();
    assert_eq!(err.line, 1);
    assert_eq!(err.err, SyntaxErrorKind::ExpectedNothing(OpCode::HALT));
    assert_eq!(err.code(), 20);
}

#[test]
fn expected_reg() {
    let err = assemble_text("main: pop 5\n").unwrap_err();
    assert_eq!(err.err, SyntaxErrorKind::ExpectedReg(OpCode::POP));
    assert_eq!(err.code(), 18);
}

#[test]
fn expected_reg_or_imm() {
    let err = assemble_text("main: int r0, r1\n").unwrap_err();
    assert_eq!(err.err, SyntaxErrorKind::ExpectedRegOrImm(OpCode::INT));
    assert_eq!(err.code(), 19);
}

#[test]
fn expected_reg_imm_or_reg() {
    let err = assemble_text("main: mov 5, r0\n").unwrap_err();
    assert_eq!(err.err, SyntaxErrorKind::ExpectedRegImmOrReg(OpCode::MOV));
    assert_eq!(err.code(), 17);
}

#[test]
fn wide_register_rejected_in_narrow_field() {
    // rpc has index 8, which does not fit the 3-bit first-operand field.
    let err = assemble_text("main: mov rpc, 5\n").unwrap_err();
    assert_eq!(err.err, SyntaxErrorKind::ExpectedRegImmOrReg(OpCode::MOV));
}

#[test]
fn int_with_immediate() {
    let out = assemble_text("main: int 80\n").unwrap();
    assert_eq!(out, vec![0x00, 0x00, 0x00, 0x00, 0x6C, 0x00, 0x00, 0x50]);
}

#[test]
fn call_and_ret() {
    let out = assemble_text("main: call sub2\nsub2: ret\n").unwrap();
    assert_eq!(
        out,
        vec![0x00, 0x00, 0x00, 0x00, 0x8C, 0x00, 0x00, 0x04, 0x80, 0x00, 0x00, 0x00]
    );
}

#[test]
fn zero_operand_opcodes() {
    let out = assemble_text("main: clear\ntrace\ndup\nswap\nneg\n").unwrap();
    assert_eq!(
        out,
        vec![
            0x00, 0x00, 0x00, 0x00, 0xB0, 0x00, 0x00, 0x00, 0xC0, 0x00, 0x00, 0x00, 0xC8, 0x00,
            0x00, 0x00, 0xD0, 0x00, 0x00, 0x00, 0x28, 0x00, 0x00, 0x00
        ]
    );
}

#[test]
fn shift_with_immediate() {
    let out = assemble_text("main: shl r2, 3\n").unwrap();
    assert_eq!(out, vec![0x00, 0x00, 0x00, 0x00, 0x32, 0x80, 0x00, 0x03]);
}

#[test]
fn read_and_write_mnemonics() {
    let out = assemble_text("main: rd r0, r1\nwr r1, r0\n").unwrap();
    assert_eq!(
        out,
        vec![0x00, 0x00, 0x00, 0x00, 0x98, 0x00, 0x00, 0x01, 0xA1, 0x00, 0x00, 0x00]
    );
}

#[test]
fn backward_label_reference() {
    let out = assemble_text("back: halt\nmain: jmp back\n").unwrap();
    assert_eq!(
        out,
        vec![0x00, 0x00, 0x00, 0x04, 0xB8, 0x00, 0x00, 0x00, 0x60, 0x80, 0x00, 0x00]
    );
}

#[test]
fn missing_trailing_newline_still_assembles() {
    let out = assemble_text("main: halt").unwrap();
    assert_eq!(out, vec![0x00, 0x00, 0x00, 0x00, 0xB8, 0x00, 0x00, 0x00]);
}

#[test]
fn leading_blank_line_accepted() {
    let plain = assemble_text("main: halt\n").unwrap();
    let led = assemble_text("\nmain: halt\n").unwrap();
    assert_eq!(plain, led);
}

#[test]
fn char_literal_before_newline_is_rejected() {
    // The closing quote re-seeds the next word, so it stands in the gap
    // that follows the operand, where only spaces are permitted.
    let err = assemble_text("main: push 'A'\n").unwrap_err();
    assert_eq!(err.err, SyntaxErrorKind::SyntaxError);
}

#[test]
fn duplicate_label_on_same_line() {
    let err = assemble_text("main: main: halt\n").unwrap_err();
    assert_eq!(err.line, 1);
    assert_eq!(err.err, SyntaxErrorKind::LabelDeclaredTwice(chars("main")));
}

#[test]
fn several_labels_share_an_address() {
    let out = assemble_text("main: start: halt\nloop2: jmp start\n").unwrap();
    assert_eq!(
        out,
        vec![0x00, 0x00, 0x00, 0x00, 0xB8, 0x00, 0x00, 0x00, 0x60, 0x80, 0x00, 0x00]
    );
}
