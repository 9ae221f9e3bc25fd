//! Assembly of a whole program: the byte pairs of its instruction lines, in
//! source order, and one terminator byte.

use crate::error::AssembleError;
#[allow(unused_imports)]
use crate::instruction::{
    encoding, lemma_encoding_unknown_mnemonic, mnemonic_of, InstructionAddress, Policy,
};
use crate::instruction::InstructionSet;
#[allow(unused_imports)]
use crate::text::normalized;
use vstd::prelude::*;

verus! {

/// The byte that ends every object stream.
pub const TERMINATOR: u8 = 0xFF;

/// The character that a directive line starts with.
pub const DIRECTIVE_MARKER: char = '.';

/// The kinds of source line.
#[derive(Clone, Copy, Debug, PartialEq, Eq, Structural)]
pub enum SourceLine {
    /// An empty line. It is ignored.
    Blank,
    /// A line that starts with `.`. It is reserved, and ignored.
    Directive,
    /// Any other line: a mnemonic and, optionally, an operand.
    Instruction,
}

/// The kind of a source line.
pub open spec fn line_kind(line: Seq<char>) -> SourceLine {
    if line.len() == 0 {
        SourceLine::Blank
    } else if line[0] == DIRECTIVE_MARKER {
        SourceLine::Directive
    } else {
        SourceLine::Instruction
    }
}

/// The texts of a list of lines.
pub open spec fn texts(lines: Seq<String>) -> Seq<Seq<char>> {
    Seq::new(lines.len(), |i: int| lines[i]@)
}

/// The byte pairs of the instruction lines among `lines`, in order; or, if a
/// line is rejected, the first such line and the reason.
pub open spec fn encoded(
    table: Map<Seq<char>, InstructionAddress>,
    policy: Policy,
    lines: Seq<Seq<char>>,
) -> Result<Seq<u8>, AssembleError>
    decreases lines.len(),
{
    if lines.len() == 0 {
        Ok(Seq::empty())
    } else {
        match encoded(table, policy, lines.drop_last()) {
            Err(error) => Err(error),
            Ok(bytes) => match line_kind(lines.last()) {
                SourceLine::Instruction => match encoding(table, policy, normalized(lines.last())) {
                    Ok(code) => Ok(bytes.push(code.instruction).push(code.argument)),
                    Err(error) => Err(
                        AssembleError { line: (lines.len() - 1) as usize, error },
                    ),
                },
                _ => Ok(bytes),
            },
        }
    }
}

/// The object stream of a program: the byte pairs of its instruction lines
/// and the terminator. A program with a rejected line has none.
pub open spec fn object_code(
    table: Map<Seq<char>, InstructionAddress>,
    policy: Policy,
    lines: Seq<Seq<char>>,
) -> Result<Seq<u8>, AssembleError> {
    match encoded(table, policy, lines) {
        Ok(bytes) => Ok(bytes.push(TERMINATOR)),
        Err(error) => Err(error),
    }
}

/// The number of instruction lines among `lines`.
pub open spec fn instruction_count(lines: Seq<Seq<char>>) -> nat
    decreases lines.len(),
{
    if lines.len() == 0 {
        0
    } else if line_kind(lines.last()) is Instruction {
        instruction_count(lines.drop_last()) + 1
    } else {
        instruction_count(lines.drop_last())
    }
}

/// A rejection among the first lines of a program is the rejection of the
/// program.
pub proof fn lemma_rejection_stands(
    table: Map<Seq<char>, InstructionAddress>,
    policy: Policy,
    lines: Seq<Seq<char>>,
    n: int,
)
    requires
        0 <= n <= lines.len(),
        encoded(table, policy, lines.take(n)) is Err,
    ensures
        encoded(table, policy, lines) == encoded(table, policy, lines.take(n)),
    decreases lines.len() - n,
{
    if n < lines.len() {
        assert(lines.take(n + 1).drop_last() == lines.take(n));
        lemma_rejection_stands(table, policy, lines, n + 1);
    } else {
        assert(lines.take(n) == lines);
    }
}

/// An object stream holds two bytes for each instruction line of its program
/// and ends with the terminator.
pub proof fn lemma_object_code_length(
    table: Map<Seq<char>, InstructionAddress>,
    policy: Policy,
    lines: Seq<Seq<char>>,
)
    requires
        object_code(table, policy, lines) is Ok,
    ensures
        object_code(table, policy, lines)->Ok_0.len() == 2 * instruction_count(lines) + 1,
        object_code(table, policy, lines)->Ok_0.last() == TERMINATOR,
{
    lemma_encoded_length(table, policy, lines);
}

/// The object stream of a program of `k` lines, all of them instruction
/// lines, has `2k + 1` bytes, the last of which is the terminator.
pub proof fn lemma_instruction_program_length(
    table: Map<Seq<char>, InstructionAddress>,
    policy: Policy,
    lines: Seq<Seq<char>>,
)
    requires
        object_code(table, policy, lines) is Ok,
        forall|i: int| 0 <= i < lines.len() ==> line_kind(#[trigger] lines[i]) is Instruction,
    ensures
        object_code(table, policy, lines)->Ok_0.len() == 2 * lines.len() + 1,
        object_code(table, policy, lines)->Ok_0.last() == TERMINATOR,
{
    lemma_object_code_length(table, policy, lines);
    lemma_instruction_count_all(lines);
}

/// The byte pairs of a program are two bytes for each instruction line.
proof fn lemma_encoded_length(
    table: Map<Seq<char>, InstructionAddress>,
    policy: Policy,
    lines: Seq<Seq<char>>,
)
    requires
        encoded(table, policy, lines) is Ok,
    ensures
        encoded(table, policy, lines)->Ok_0.len() == 2 * instruction_count(lines),
    decreases lines.len(),
{
    if lines.len() > 0 {
        lemma_encoded_length(table, policy, lines.drop_last());
    }
}

/// Where every line is an instruction line, there are as many instruction
/// lines as lines.
proof fn lemma_instruction_count_all(lines: Seq<Seq<char>>)
    requires
        forall|i: int| 0 <= i < lines.len() ==> line_kind(#[trigger] lines[i]) is Instruction,
    ensures
        instruction_count(lines) == lines.len(),
    decreases lines.len(),
{
    if lines.len() > 0 {
        let init = lines.drop_last();
        assert forall|i: int| 0 <= i < init.len() implies line_kind(
            #[trigger] init[i],
        ) is Instruction by {
            assert(init[i] == lines[i]);
        }
        lemma_instruction_count_all(init);
        assert(line_kind(lines[lines.len() - 1]) is Instruction);
    }
}

/// A blank line, or a directive line, adds no byte: with such a line put in
/// at any place, a program has the same object stream, and a program that is
/// rejected is rejected still, for the same reason.
pub proof fn lemma_inert_line(
    table: Map<Seq<char>, InstructionAddress>,
    policy: Policy,
    lines: Seq<Seq<char>>,
    at: int,
    line: Seq<char>,
)
    requires
        0 <= at <= lines.len(),
        !(line_kind(line) is Instruction),
    ensures
        match object_code(table, policy, lines) {
            Ok(bytes) => object_code(table, policy, lines.insert(at, line)) == Ok::<
                Seq<u8>,
                AssembleError,
            >(bytes),
            Err(error) => {
                &&& object_code(table, policy, lines.insert(at, line)) is Err
                &&& object_code(table, policy, lines.insert(at, line))->Err_0.error
                    == error.error
            },
        },
{
    lemma_inert_line_encoded(table, policy, lines, at, line);
}

proof fn lemma_inert_line_encoded(
    table: Map<Seq<char>, InstructionAddress>,
    policy: Policy,
    lines: Seq<Seq<char>>,
    at: int,
    line: Seq<char>,
)
    requires
        0 <= at <= lines.len(),
        !(line_kind(line) is Instruction),
    ensures
        match encoded(table, policy, lines) {
            Ok(bytes) => encoded(table, policy, lines.insert(at, line)) == Ok::<
                Seq<u8>,
                AssembleError,
            >(bytes),
            Err(error) => {
                &&& encoded(table, policy, lines.insert(at, line)) is Err
                &&& encoded(table, policy, lines.insert(at, line))->Err_0.error == error.error
            },
        },
    decreases lines.len() - at,
{
    let longer = lines.insert(at, line);
    if at == lines.len() {
        assert(longer.drop_last() == lines);
        assert(longer.last() == line);
    } else {
        assert(longer.drop_last() == lines.drop_last().insert(at, line));
        assert(longer.last() == lines.last());
        lemma_inert_line_encoded(table, policy, lines.drop_last(), at, line);
    }
}

/// A program with an instruction line that cannot be encoded has no object
/// stream.
pub proof fn lemma_rejected_line(
    table: Map<Seq<char>, InstructionAddress>,
    policy: Policy,
    lines: Seq<Seq<char>>,
    at: int,
)
    requires
        0 <= at < lines.len(),
        line_kind(lines[at]) is Instruction,
        encoding(table, policy, normalized(lines[at])) is Err,
    ensures
        object_code(table, policy, lines) is Err,
{
    assert(lines.take(at + 1).drop_last() == lines.take(at));
    assert(lines.take(at + 1).last() == lines[at]);
    lemma_rejection_stands(table, policy, lines, at + 1);
}

/// Under the strict policy, a program with an instruction line whose mnemonic
/// the table lacks has no object stream.
pub proof fn lemma_strict_unknown_mnemonic(
    table: Map<Seq<char>, InstructionAddress>,
    lines: Seq<Seq<char>>,
    at: int,
)
    requires
        0 <= at < lines.len(),
        line_kind(lines[at]) is Instruction,
        !table.contains_key(mnemonic_of(normalized(lines[at]))),
    ensures
        object_code(table, Policy::Strict, lines) is Err,
{
    lemma_encoding_unknown_mnemonic(table, normalized(lines[at]));
    lemma_rejected_line(table, Policy::Strict, lines, at);
}

/// The kind of a source line.
pub fn classify(line: &str) -> (kind: SourceLine)
    ensures
        kind == line_kind(line@),
{
    if line.is_empty() {
        SourceLine::Blank
    } else if line.get_char(0) == DIRECTIVE_MARKER {
        SourceLine::Directive
    } else {
        SourceLine::Instruction
    }
}

/// Assembles a program: encodes its instruction lines in order, skips blank
/// and directive lines, and ends the stream with the terminator. The first
/// line that is rejected ends the assembly, and no stream is returned.
pub fn assemble(set: &InstructionSet, lines: &Vec<String>) -> (r: Result<Vec<u8>, AssembleError>)
    ensures
        match r {
            Ok(bytes) => object_code(set@, set.policy(), texts(lines@)) == Ok::<
                Seq<u8>,
                AssembleError,
            >(bytes@),
            Err(error) => object_code(set@, set.policy(), texts(lines@)) == Err::<
                Seq<u8>,
                AssembleError,
            >(error),
        },
{
    let ghost all = texts(lines@);
    let mut binary_instructions: Vec<u8> = Vec::new();
    let mut i: usize = 0;
    while i < lines.len()
        invariant
            i <= lines.len(),
            all == texts(lines@),
            encoded(set@, set.policy(), all.take(i as int)) == Ok::<Seq<u8>, AssembleError>(
                binary_instructions@,
            ),
        decreases lines.len() - i,
    {
        let line = lines[i].as_str();
        proof {
            assert(all.take(i + 1).drop_last() == all.take(i as int));
            assert(all.take(i + 1).last() == line@);
        }
        match classify(line) {
            SourceLine::Instruction => {
                match set.map_instruction(line) {
                    Ok(parsed_value) => {
                        binary_instructions.push(parsed_value.instruction);
                        binary_instructions.push(parsed_value.argument);
                    },
                    Err(error) => {
                        proof {
                            lemma_rejection_stands(set@, set.policy(), all, i + 1);
                        }
                        return Err(AssembleError { line: i, error });
                    },
                }
            },
            _ => {},
        }
        i += 1;
    }
    assert(all.take(i as int) == all);
    binary_instructions.push(TERMINATOR);
    Ok(binary_instructions)
}

} // verus!
