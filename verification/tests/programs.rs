use myasm::error::{AssembleError, EncodeError};
use myasm::files::{is_source_extension, object_file_name};
use myasm::instruction::{InstructionAddress, InstructionSet, Policy};
use myasm::program::{assemble, classify, SourceLine, TERMINATOR};

fn single_mode(entries: &[(&str, u8)], policy: Policy) -> InstructionSet {
    let entries: Vec<(String, InstructionAddress)> = entries
        .iter()
        .map(|(mnemonic, code)| {
            (mnemonic.to_string(), InstructionAddress { op_code: *code, addressable_op_code: *code })
        })
        .collect();
    InstructionSet::new(&entries, policy)
}

fn sample(policy: Policy) -> InstructionSet {
    single_mode(&[("LDA", 1), ("STA", 2), ("ADD", 3), ("LDI", 4), ("OUT", 5), ("HLT", 31)], policy)
}

fn lines(texts: &[&str]) -> Vec<String> {
    texts.iter().map(|text| text.to_string()).collect()
}

#[test]
fn program_of_three_lines() {
    let set = single_mode(&[("LDI", 4), ("OUT", 5), ("HLT", 31)], Policy::Tolerant);
    let program = lines(&["LDI #7", "OUT", "HLT"]);
    assert_eq!(assemble(&set, &program), Ok(vec![4, 7, 5, 0, 31, 0, 255]));
}

#[test]
fn empty_program_is_the_terminator() {
    let set = sample(Policy::Strict);
    assert_eq!(assemble(&set, &Vec::new()), Ok(vec![0xFF]));
    assert_eq!(TERMINATOR, 0xFF);
}

#[test]
fn two_bytes_for_each_instruction_line() {
    let set = sample(Policy::Strict);
    let mut program: Vec<String> = Vec::new();
    for k in 0..40usize {
        let bytes = assemble(&set, &program).unwrap();
        assert_eq!(bytes.len(), 2 * k + 1);
        assert_eq!(bytes[2 * k], 0xFF);
        program.push(format!("ADD #{}", k));
    }
}

#[test]
fn bytes_follow_the_source_order() {
    let set = sample(Policy::Strict);
    let program = lines(&["lda $14", "add $15", "sta $16", "out", "hlt"]);
    assert_eq!(assemble(&set, &program), Ok(vec![1, 14, 3, 15, 2, 16, 5, 0, 31, 0, 255]));
}

#[test]
fn blank_lines_add_no_bytes() {
    let set = sample(Policy::Strict);
    let plain = lines(&["LDI #7", "OUT", "HLT"]);
    let expected = assemble(&set, &plain);
    assert_eq!(expected, Ok(vec![4, 7, 5, 0, 31, 0, 255]));
    for at in 0..=plain.len() {
        let mut program = plain.clone();
        program.insert(at, String::new());
        assert_eq!(assemble(&set, &program), expected);
        program.insert(at, String::new());
        assert_eq!(assemble(&set, &program), expected);
    }
    assert_eq!(assemble(&set, &lines(&["", "", ""])), Ok(vec![0xFF]));
}

#[test]
fn directive_lines_add_no_bytes() {
    let set = sample(Policy::Strict);
    let program = lines(&[".org 0", "LDI #7", ".", "OUT", ".define x #300", "HLT"]);
    assert_eq!(assemble(&set, &program), Ok(vec![4, 7, 5, 0, 31, 0, 255]));
}

#[test]
fn unknown_mnemonic_in_a_tolerant_run() {
    let set = sample(Policy::Tolerant);
    let program = lines(&["LDI #7", "NOP", "JMP $3", "HLT"]);
    assert_eq!(assemble(&set, &program), Ok(vec![4, 7, 0, 0, 0, 3, 31, 0, 255]));
}

#[test]
fn unknown_mnemonic_in_a_strict_run() {
    let set = sample(Policy::Strict);
    let program = lines(&["LDI #7", "", "NOP", "JMP $3", "HLT"]);
    assert_eq!(
        assemble(&set, &program),
        Err(AssembleError { line: 2, error: EncodeError::UnknownMnemonic })
    );
}

#[test]
fn white_space_line_is_an_instruction_line() {
    let tolerant = sample(Policy::Tolerant);
    assert_eq!(assemble(&tolerant, &lines(&["  "])), Ok(vec![0, 0, 255]));
    let strict = sample(Policy::Strict);
    assert_eq!(
        assemble(&strict, &lines(&["  "])),
        Err(AssembleError { line: 0, error: EncodeError::UnknownMnemonic })
    );
}

#[test]
fn first_rejected_line_is_reported() {
    let set = sample(Policy::Tolerant);
    let program = lines(&["LDI #7", ".skip", "LDA #256", "LDA 5", "LDA #x"]);
    assert_eq!(
        assemble(&set, &program),
        Err(AssembleError { line: 2, error: EncodeError::OperandOutOfRange })
    );
    let program = lines(&["LDA 5", "LDA #256"]);
    assert_eq!(
        assemble(&set, &program),
        Err(AssembleError { line: 0, error: EncodeError::UnrecognizedMarker })
    );
    let program = lines(&["HLT", "HLT", "HLT", "LDA #-1"]);
    assert_eq!(
        assemble(&set, &program),
        Err(AssembleError { line: 3, error: EncodeError::InvalidNumeral })
    );
}

#[test]
fn kinds_of_line() {
    assert_eq!(classify(""), SourceLine::Blank);
    assert_eq!(classify("."), SourceLine::Directive);
    assert_eq!(classify(".org 10"), SourceLine::Directive);
    assert_eq!(classify("LDA #5"), SourceLine::Instruction);
    assert_eq!(classify(" "), SourceLine::Instruction);
    assert_eq!(classify(" .org"), SourceLine::Instruction);
    assert_eq!(classify("é."), SourceLine::Instruction);
}

#[test]
fn source_file_extension() {
    assert!(is_source_extension("myasm"));
    assert!(!is_source_extension("MYASM"));
    assert!(!is_source_extension("myas"));
    assert!(!is_source_extension("myasmx"));
    assert!(!is_source_extension(".myasm"));
    assert!(!is_source_extension("myobj"));
    assert!(!is_source_extension(""));
}

#[test]
fn object_file_names() {
    assert_eq!(object_file_name("out"), "out.myobj");
    assert_eq!(object_file_name(""), ".myobj");
    assert_eq!(object_file_name("build/prog.v1"), "build/prog.v1.myobj");
}
