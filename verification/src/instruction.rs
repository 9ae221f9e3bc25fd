//! The instruction table and the encoding of one instruction line.

use crate::error::EncodeError;
#[allow(unused_imports)]
use crate::operand::{
    decimal, lemma_numeral_of_decimal, numeral, operand_spec, DIRECT_MARKER, IMMEDIATE_MARKER,
};
use crate::operand::{parse_operand, OperandSpec};
#[allow(unused_imports)]
use crate::text::{
    is_whitespace, lemma_token_run_ends, lemma_whitespace_run_ends, normalized, token_run,
    whitespace_run,
};
use crate::text::{chars_of, normalize, skip_token, skip_whitespace};
use vstd::hash_map::StringHashMap;
use vstd::prelude::*;

verus! {

/// One encoded instruction: the two bytes that an instruction line becomes.
#[derive(Clone, Copy, Debug, PartialEq, Eq, Structural)]
pub struct OpCode {
    pub instruction: u8,
    pub argument: u8,
}

/// The opcodes of one mnemonic.
#[derive(Clone, Copy, Debug, PartialEq, Eq, Structural)]
pub struct InstructionAddress {
    /// The opcode for an immediate operand and for no operand.
    pub op_code: u8,
    /// The opcode for an operand that is a memory address.
    pub addressable_op_code: u8,
}

/// What becomes of a line whose mnemonic is not in the table.
#[derive(Clone, Copy, Debug, PartialEq, Eq, Structural)]
pub enum Policy {
    /// The line is encoded with opcode 0.
    Tolerant,
    /// The line is rejected.
    Strict,
}

/// The instruction table: the opcodes of each mnemonic, and the policy for
/// mnemonics that it does not hold. It does not change once it is built.
pub struct InstructionSet {
    instructions: StringHashMap<InstructionAddress>,
    policy: Policy,
}

/// The table that a list of entries builds: each mnemonic with the opcodes of
/// the last entry that names it.
pub open spec fn table_of(entries: Seq<(String, InstructionAddress)>) -> Map<
    Seq<char>,
    InstructionAddress,
>
    decreases entries.len(),
{
    if entries.len() == 0 {
        Map::empty()
    } else {
        table_of(entries.drop_last()).insert(entries.last().0@, entries.last().1)
    }
}

/// Whether the entry at `i` is for `mnemonic`.
pub open spec fn names(
    entries: Seq<(String, InstructionAddress)>,
    i: int,
    mnemonic: Seq<char>,
) -> bool {
    0 <= i < entries.len() && entries[i].0@ == mnemonic
}

/// The table of a list of entries holds a mnemonic exactly if an entry names
/// it.
pub proof fn lemma_table_of_contains(
    entries: Seq<(String, InstructionAddress)>,
    mnemonic: Seq<char>,
)
    ensures
        table_of(entries).contains_key(mnemonic) <==> exists|i: int| names(entries, i, mnemonic),
    decreases entries.len(),
{
    if entries.len() > 0 {
        let init = entries.drop_last();
        lemma_table_of_contains(init, mnemonic);
        if table_of(entries).contains_key(mnemonic) {
            if entries.last().0@ == mnemonic {
                assert(names(entries, entries.len() - 1, mnemonic));
            } else {
                let i = choose|i: int| names(init, i, mnemonic);
                assert(names(entries, i, mnemonic));
            }
        }
        if exists|i: int| names(entries, i, mnemonic) {
            let i = choose|i: int| names(entries, i, mnemonic);
            if i < entries.len() - 1 {
                assert(names(init, i, mnemonic));
            }
        }
    }
}

/// The table of a list of entries gives a mnemonic the opcodes of the last
/// entry that names it.
pub proof fn lemma_table_of_last(entries: Seq<(String, InstructionAddress)>, i: int)
    requires
        0 <= i < entries.len(),
        forall|j: int| i < j < entries.len() ==> !names(entries, j, entries[i].0@),
    ensures
        table_of(entries).contains_key(entries[i].0@),
        table_of(entries)[entries[i].0@] == entries[i].1,
    decreases entries.len(),
{
    if i < entries.len() - 1 {
        let init = entries.drop_last();
        assert(!names(entries, entries.len() - 1, entries[i].0@));
        assert forall|j: int| i < j < init.len() implies !names(init, j, init[i].0@) by {
            assert(!names(entries, j, entries[i].0@));
        }
        lemma_table_of_last(init, i);
    }
}

/// The opcode of `mnemonic` in `table`: the direct one if `wants_direct`, else
/// the immediate one. A mnemonic that the table lacks has opcode 0 under the
/// tolerant policy and is an error under the strict one.
pub open spec fn resolve(
    table: Map<Seq<char>, InstructionAddress>,
    policy: Policy,
    mnemonic: Seq<char>,
    wants_direct: bool,
) -> Result<u8, EncodeError> {
    if table.contains_key(mnemonic) {
        if wants_direct {
            Ok(table[mnemonic].addressable_op_code)
        } else {
            Ok(table[mnemonic].op_code)
        }
    } else {
        match policy {
            Policy::Tolerant => Ok(0u8),
            Policy::Strict => Err(EncodeError::UnknownMnemonic),
        }
    }
}

/// The mnemonic of a normalized line: its characters before the first white
/// space.
pub open spec fn mnemonic_of(text: Seq<char>) -> Seq<char> {
    text.take(token_run(text) as int)
}

/// The operand text of a normalized line: what follows the mnemonic and the
/// run of white space after it. It is empty if nothing follows.
pub open spec fn operand_text(text: Seq<char>) -> Seq<char> {
    let rest = text.skip(token_run(text) as int);
    rest.skip(whitespace_run(rest) as int)
}

/// The operand text of a normalized line, if it has one.
pub open spec fn operand_of(text: Seq<char>) -> Option<Seq<char>> {
    if operand_text(text).len() == 0 {
        None
    } else {
        Some(operand_text(text))
    }
}

/// The byte pair of a normalized line. The operand is read first, then the
/// mnemonic is looked up in the form that the operand asks for.
pub open spec fn encoding(
    table: Map<Seq<char>, InstructionAddress>,
    policy: Policy,
    text: Seq<char>,
) -> Result<OpCode, EncodeError> {
    match operand_spec(operand_text(text)) {
        Err(error) => Err(error),
        Ok(operand) => match resolve(table, policy, mnemonic_of(text), operand.wants_direct()) {
            Err(error) => Err(error),
            Ok(instruction) => Ok(OpCode { instruction, argument: operand.byte() }),
        },
    }
}

/// A text that can stand as a mnemonic: it holds no white space.
pub open spec fn is_token(text: Seq<char>) -> bool {
    forall|i: int| 0 <= i < text.len() ==> !is_whitespace(#[trigger] text[i])
}

/// A text that separates a mnemonic from its operand: one or more white-space
/// characters.
pub open spec fn is_gap(text: Seq<char>) -> bool {
    &&& text.len() > 0
    &&& forall|i: int| 0 <= i < text.len() ==> is_whitespace(#[trigger] text[i])
}

/// A line in normal form that is made of a mnemonic, a gap and an operand
/// text that starts with a marker splits into that mnemonic and that operand.
pub proof fn lemma_line_parts(mnemonic: Seq<char>, gap: Seq<char>, operand: Seq<char>)
    requires
        is_token(mnemonic),
        is_gap(gap),
        operand.len() > 0,
        !is_whitespace(operand[0]),
    ensures
        mnemonic_of(mnemonic + gap + operand) == mnemonic,
        operand_text(mnemonic + gap + operand) == operand,
{
    let text = mnemonic + gap + operand;
    assert(is_whitespace(gap[0]));
    assert(text[mnemonic.len() as int] == gap[0]);
    lemma_token_run_ends(text, mnemonic.len() as int);
    assert(text.take(mnemonic.len() as int) == mnemonic);
    let rest = text.skip(mnemonic.len() as int);
    assert(rest == gap + operand);
    assert forall|i: int| 0 <= i < gap.len() implies is_whitespace(#[trigger] rest[i]) by {
        assert(rest[i] == gap[i]);
    }
    assert(rest[gap.len() as int] == operand[0]);
    lemma_whitespace_run_ends(rest, gap.len() as int);
    assert(rest.skip(gap.len() as int) == operand);
}

/// A line that is a known mnemonic and nothing else is encoded as the
/// mnemonic's immediate opcode and the operand byte 0.
pub proof fn lemma_encoding_without_operand(
    table: Map<Seq<char>, InstructionAddress>,
    policy: Policy,
    mnemonic: Seq<char>,
)
    requires
        table.contains_key(mnemonic),
        is_token(mnemonic),
    ensures
        encoding(table, policy, mnemonic) == Ok::<OpCode, EncodeError>(
            OpCode { instruction: table[mnemonic].op_code, argument: 0 },
        ),
{
    lemma_token_run_ends(mnemonic, mnemonic.len() as int);
    assert(mnemonic.take(mnemonic.len() as int) == mnemonic);
    assert(mnemonic.skip(mnemonic.len() as int).len() == 0);
}

/// A known mnemonic with the operand `#` and a numeral for the byte `n` is
/// encoded as the mnemonic's immediate opcode and `n`.
pub proof fn lemma_encoding_immediate(
    table: Map<Seq<char>, InstructionAddress>,
    policy: Policy,
    mnemonic: Seq<char>,
    gap: Seq<char>,
    number: Seq<char>,
    n: u8,
)
    requires
        table.contains_key(mnemonic),
        is_token(mnemonic),
        is_gap(gap),
        numeral(number) == Ok::<u8, EncodeError>(n),
    ensures
        encoding(table, policy, mnemonic + gap + (seq![IMMEDIATE_MARKER] + number)) == Ok::<
            OpCode,
            EncodeError,
        >(OpCode { instruction: table[mnemonic].op_code, argument: n }),
{
    let operand = seq![IMMEDIATE_MARKER] + number;
    assert(operand[0] == IMMEDIATE_MARKER);
    assert(operand.skip(1) == number);
    lemma_line_parts(mnemonic, gap, operand);
}

/// A known mnemonic with the operand `$` and a numeral for the byte `n` is
/// encoded as the mnemonic's direct opcode and `n`.
pub proof fn lemma_encoding_direct(
    table: Map<Seq<char>, InstructionAddress>,
    policy: Policy,
    mnemonic: Seq<char>,
    gap: Seq<char>,
    number: Seq<char>,
    n: u8,
)
    requires
        table.contains_key(mnemonic),
        is_token(mnemonic),
        is_gap(gap),
        numeral(number) == Ok::<u8, EncodeError>(n),
    ensures
        encoding(table, policy, mnemonic + gap + (seq![DIRECT_MARKER] + number)) == Ok::<
            OpCode,
            EncodeError,
        >(OpCode { instruction: table[mnemonic].addressable_op_code, argument: n }),
{
    let operand = seq![DIRECT_MARKER] + number;
    assert(operand[0] == DIRECT_MARKER);
    assert(operand.skip(1) == number);
    lemma_line_parts(mnemonic, gap, operand);
}

/// A known mnemonic, a space, `#` and the decimal text of a byte `n` are
/// encoded as the mnemonic's immediate opcode and `n`.
pub proof fn lemma_encoding_immediate_decimal(
    table: Map<Seq<char>, InstructionAddress>,
    policy: Policy,
    mnemonic: Seq<char>,
    n: u8,
)
    requires
        table.contains_key(mnemonic),
        is_token(mnemonic),
    ensures
        encoding(
            table,
            policy,
            mnemonic + seq![' '] + (seq![IMMEDIATE_MARKER] + decimal(n as nat)),
        ) == Ok::<OpCode, EncodeError>(
            OpCode { instruction: table[mnemonic].op_code, argument: n },
        ),
{
    lemma_numeral_of_decimal(n);
    lemma_encoding_immediate(table, policy, mnemonic, seq![' '], decimal(n as nat), n);
}

/// A known mnemonic, a space, `$` and the decimal text of a byte `n` are
/// encoded as the mnemonic's direct opcode and `n`.
pub proof fn lemma_encoding_direct_decimal(
    table: Map<Seq<char>, InstructionAddress>,
    policy: Policy,
    mnemonic: Seq<char>,
    n: u8,
)
    requires
        table.contains_key(mnemonic),
        is_token(mnemonic),
    ensures
        encoding(
            table,
            policy,
            mnemonic + seq![' '] + (seq![DIRECT_MARKER] + decimal(n as nat)),
        ) == Ok::<OpCode, EncodeError>(
            OpCode { instruction: table[mnemonic].addressable_op_code, argument: n },
        ),
{
    lemma_numeral_of_decimal(n);
    lemma_encoding_direct(table, policy, mnemonic, seq![' '], decimal(n as nat), n);
}

/// A line whose mnemonic the table lacks, and whose operand is well formed,
/// is encoded with opcode 0 under the tolerant policy and rejected under the
/// strict one. A malformed operand is rejected under both.
pub proof fn lemma_encoding_unknown_mnemonic(
    table: Map<Seq<char>, InstructionAddress>,
    text: Seq<char>,
)
    requires
        !table.contains_key(mnemonic_of(text)),
    ensures
        match operand_spec(operand_text(text)) {
            Ok(operand) => {
                &&& encoding(table, Policy::Tolerant, text) == Ok::<OpCode, EncodeError>(
                    OpCode { instruction: 0, argument: operand.byte() },
                )
                &&& encoding(table, Policy::Strict, text) == Err::<OpCode, EncodeError>(
                    EncodeError::UnknownMnemonic,
                )
            },
            Err(error) => {
                &&& encoding(table, Policy::Tolerant, text) == Err::<OpCode, EncodeError>(error)
                &&& encoding(table, Policy::Strict, text) == Err::<OpCode, EncodeError>(error)
            },
        },
{
}

impl View for InstructionSet {
    type V = Map<Seq<char>, InstructionAddress>;

    closed spec fn view(&self) -> Self::V {
        self.instructions@
    }
}

impl InstructionSet {
    /// The policy that the table was built with.
    pub closed spec fn spec_policy(&self) -> Policy {
        self.policy
    }

    /// Builds the table from its entries, in order: a later entry replaces an
    /// earlier one for the same mnemonic.
    pub fn new(entries: &Vec<(String, InstructionAddress)>, policy: Policy) -> (set: InstructionSet)
        ensures
            set@ == table_of(entries@),
            set.policy() == policy,
    {
        let mut instructions: StringHashMap<InstructionAddress> = StringHashMap::new();
        let mut i: usize = 0;
        while i < entries.len()
            invariant
                i <= entries.len(),
                instructions@ == table_of(entries@.take(i as int)),
            decreases entries.len() - i,
        {
            let entry = &entries[i];
            assert(entries@.take(i + 1).drop_last() == entries@.take(i as int));
            instructions.insert(entry.0.clone(), entry.1);
            i += 1;
        }
        assert(entries@.take(i as int) == entries@);
        InstructionSet { instructions, policy }
    }

    /// The policy that the table was built with.
    #[verifier::when_used_as_spec(spec_policy)]
    pub fn policy(&self) -> (policy: Policy)
        ensures
            policy == self.policy(),
    {
        self.policy
    }

    /// Whether the table holds a mnemonic.
    pub fn contains(&self, mnemonic: &str) -> (b: bool)
        ensures
            b == self@.contains_key(mnemonic@),
    {
        self.instructions.contains_key(mnemonic)
    }

    /// Looks up the opcode of a mnemonic, in its direct form if `is_address`.
    pub fn get_address_operation(&self, instruction: &str, is_address: bool) -> (r: Result<
        u8,
        EncodeError,
    >)
        ensures
            r == resolve(self@, self.policy(), instruction@, is_address),
    {
        match self.instructions.get(instruction) {
            None => match self.policy {
                Policy::Tolerant => Ok(0),
                Policy::Strict => Err(EncodeError::UnknownMnemonic),
            },
            Some(value) => {
                if is_address {
                    Ok(value.addressable_op_code)
                } else {
                    Ok(value.op_code)
                }
            },
        }
    }

    /// Encodes a line that is in normal form already.
    pub fn encode_line(&self, text: &str) -> (r: Result<OpCode, EncodeError>)
        ensures
            r == encoding(self@, self.policy(), text@),
    {
        let instruction = mnemonic_part(text);
        let operand = match operand_part(text) {
            None => OperandSpec::Absent,
            Some(value) => match parse_operand(value) {
                Ok(operand) => operand,
                Err(error) => {
                    return Err(error);
                },
            },
        };
        let (is_address, final_operand) = match operand {
            OperandSpec::Absent => (false, 0u8),
            OperandSpec::Immediate(value) => (false, value),
            OperandSpec::Direct(value) => (true, value),
        };
        match self.get_address_operation(instruction, is_address) {
            Ok(final_instruction) => Ok(
                OpCode { instruction: final_instruction, argument: final_operand },
            ),
            Err(error) => Err(error),
        }
    }

    /// Encodes one instruction line: brings it into normal form and encodes
    /// that.
    pub fn map_instruction(&self, instruction_line: &str) -> (r: Result<OpCode, EncodeError>)
        ensures
            r == encoding(self@, self.policy(), normalized(instruction_line@)),
    {
        let text = normalize(instruction_line);
        self.encode_line(text.as_str())
    }
}

/// The mnemonic of a line in normal form.
pub fn mnemonic_part(text: &str) -> (mnemonic: &str)
    ensures
        mnemonic@ == mnemonic_of(text@),
{
    let chars = chars_of(text);
    let end = skip_token(&chars, 0);
    assert(chars@.skip(0) == chars@);
    assert(text@.subrange(0, end as int) == text@.take(end as int));
    text.substring_char(0, end)
}

/// The operand text of a line in normal form, if it has one.
pub fn operand_part(text: &str) -> (operand: Option<&str>)
    ensures
        match operand {
            Some(value) => operand_of(text@) == Some(value@),
            None => operand_of(text@).is_none(),
        },
{
    let chars = chars_of(text);
    let end = skip_token(&chars, 0);
    let start = skip_whitespace(&chars, end);
    assert(chars@.skip(0) == chars@);
    assert(text@.skip(end as int).skip(start - end) == text@.skip(start as int));
    if start < chars.len() {
        assert(text@.subrange(start as int, chars.len() as int) == text@.skip(start as int));
        Some(text.substring_char(start, chars.len()))
    } else {
        None
    }
}

/// The mnemonic of a source line.
pub fn get_instruction_part(instruction_line: &str) -> (mnemonic: String)
    ensures
        mnemonic@ == mnemonic_of(normalized(instruction_line@)),
{
    let text = normalize(instruction_line);
    mnemonic_part(text.as_str()).to_owned()
}

/// The operand text of a source line, if it has one.
pub fn get_operand_part(instruction_line: &str) -> (operand: Option<String>)
    ensures
        match operand {
            Some(value) => operand_of(normalized(instruction_line@)) == Some(value@),
            None => operand_of(normalized(instruction_line@)).is_none(),
        },
{
    let text = normalize(instruction_line);
    match operand_part(text.as_str()) {
        Some(value) => Some(value.to_owned()),
        None => None,
    }
}

} // verus!
