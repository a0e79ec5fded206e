//! The x86-64 backend: the heads of instructions that mislead a disassembler, and assembly
//! that jumps to a wild address.

use vstd::prelude::*;
use vstd::string::StringExecFns;
use crate::ast::Block;
use crate::ast::BlockView;
use crate::random::choose_index;
use crate::random::random_in_range;
use crate::shatter::trap::asm_block;
use crate::shatter::trap::asm_block_with;
use crate::shatter::trap::ASM_CLOBBER;
use crate::text::decimal;
use crate::text::push_decimal;

verus! {

/// The error of the JSON parser.
#[verifier::external_type_specification]
#[verifier::external_body]
pub struct ExJsonError(serde_json::Error);

/// A catalogue of instruction heads: for each instruction its encodings, each a list of
/// bytes. The bytes are opcodes that want an immediate or an address behind them, so that
/// a disassembler takes what follows for their operand.
pub const PARTIAL_PREFIXES: &'static str =
    "[[[5],[13],[21],[29],[37],[45],[53],[61]],[[104]],[[105,192],[72,105,192]],[[129,192],[72,129,192]],[[184],[185],[186],[187]],[[72,184],[72,185],[73,184]],[[199,192],[72,199,192]],[[232]],[[233]],[[15,132],[15,133]]]";

/// The catalogue that the JSON parser reads from a text: an array of arrays of arrays of
/// bytes, or `None` where the text is anything else.
pub uninterp spec fn catalogue_of(text: Seq<char>) -> Option<Seq<Seq<Seq<u8>>>>;

/// `serde_json::from_str` at the type of a catalogue: the instructions with their encodings,
/// or the parser's error where the text is not a JSON array of arrays of arrays of bytes.
#[verifier::external_body]
fn parse_catalogue(text: &str) -> (r: Result<Vec<Vec<Vec<u8>>>, serde_json::Error>)
    ensures
        r is Ok <==> catalogue_of(text@) is Some,
        r matches Ok(catalogue) ==> catalogue_of(text@) == Some(catalogue.deep_view()),
{
    serde_json::from_str::<Vec<Vec<Vec<u8>>>>(text)
}

/// The catalogue that a text holds, empty where the text holds none.
pub open spec fn catalogue_or_empty(text: Seq<char>) -> Seq<Seq<Seq<u8>>> {
    match catalogue_of(text) {
        Some(catalogue) => catalogue,
        None => Seq::empty(),
    }
}

/// Reads a catalogue. A text that holds none gives the empty catalogue.
pub fn load_catalogue(text: &str) -> (catalogue: Vec<Vec<Vec<u8>>>)
    ensures
        catalogue.deep_view() == catalogue_or_empty(text@),
{
    match parse_catalogue(text) {
        Ok(catalogue) => catalogue,
        Err(_) => {
            let empty: Vec<Vec<Vec<u8>>> = Vec::new();
            assert(empty.deep_view() =~= Seq::<Seq<Seq<u8>>>::empty());
            empty
        },
    }
}

/// The encoding that stands at the given place of a catalogue, or nothing where the
/// catalogue has no such place.
pub open spec fn encoding_at(catalogue: Seq<Seq<Seq<u8>>>, instruction: int, encoding: int) -> Seq<u8> {
    if 0 <= instruction < catalogue.len() && 0 <= encoding < catalogue[instruction].len() {
        catalogue[instruction][encoding]
    } else {
        Seq::empty()
    }
}

/// The encoding that stands at the given place of a catalogue.
pub fn partial_instruction_at(catalogue: &Vec<Vec<Vec<u8>>>, instruction: usize, encoding: usize) -> (bytes: Vec<u8>)
    ensures
        bytes@ == encoding_at(catalogue.deep_view(), instruction as int, encoding as int),
{
    broadcast use vstd::std_specs::vec::vec_clone_deep_view_proof;

    if instruction < catalogue.len() {
        let encodings = &catalogue[instruction];
        assert(catalogue.deep_view()[instruction as int] == encodings.deep_view());
        if encoding < encodings.len() {
            let chosen = &encodings[encoding];
            assert(encodings.deep_view()[encoding as int] == chosen.deep_view());
            assert(chosen.deep_view() =~= chosen@);
            let bytes = chosen.clone();
            assert(bytes@ =~= chosen@);
            return bytes;
        }
    }
    Vec::new()
}

/// True for the encodings that a catalogue holds.
pub open spec fn is_catalogue_entry(bytes: Seq<u8>, catalogue: Seq<Seq<Seq<u8>>>) -> bool {
    exists|i: int, j: int|
        0 <= i < catalogue.len() && 0 <= j < catalogue[i].len() && bytes == #[trigger] encoding_at(
            catalogue,
            i,
            j,
        )
}

/// True where a choice from a catalogue can give no bytes: the catalogue is empty, one of
/// its instructions has no encoding, or one of its encodings has no bytes.
pub open spec fn may_yield_nothing(catalogue: Seq<Seq<Seq<u8>>>) -> bool {
    ||| catalogue.len() == 0
    ||| exists|i: int| 0 <= i < catalogue.len() && (#[trigger] catalogue[i]).len() == 0
    ||| exists|i: int, j: int|
        0 <= i < catalogue.len() && 0 <= j < catalogue[i].len() && (#[trigger] encoding_at(
            catalogue,
            i,
            j,
        )).len() == 0
}

/// The head of an instruction, chosen at random from the catalogue: an instruction and then
/// one of its encodings. What comes back is an encoding of the catalogue, or nothing; and
/// nothing only where the catalogue is empty, the instruction that was chosen has no
/// encoding, or the encoding that was chosen has no bytes.
pub fn generate_partial_instruction(catalogue: &Vec<Vec<Vec<u8>>>) -> (bytes: Vec<u8>)
    ensures
        bytes@.len() > 0 ==> is_catalogue_entry(bytes@, catalogue.deep_view()),
        bytes@.len() == 0 ==> may_yield_nothing(catalogue.deep_view()),
{
    match choose_index(catalogue.len()) {
        None => Vec::new(),
        Some(instruction) => {
            assert(catalogue.deep_view()[instruction as int]
                == catalogue[instruction as int].deep_view());
            match choose_index(catalogue[instruction].len()) {
                None => Vec::new(),
                Some(encoding) => {
                    let bytes = partial_instruction_at(catalogue, instruction, encoding);
                    assert(bytes@ == encoding_at(
                        catalogue.deep_view(),
                        instruction as int,
                        encoding as int,
                    ));
                    bytes
                },
            }
        },
    }
}

/// The assembly of the rabbit hole, up to the first rotation count.
pub const RABBIT_HOLE_HEAD: &'static str = "\"mov rax, rsp; rcl rax, ";

/// The assembly of the rabbit hole, between the rotation counts.
pub const RABBIT_HOLE_MIDDLE: &'static str =
    "; mov rsp, r14; mov rbx, r9; mov rdi, r8; mov r8, rsi; mov rsi, rbp; rcr rsi, ";

/// The assembly of the rabbit hole, behind the second rotation count: registers are moved
/// about, and the program jumps to an address made up of three of them.
pub const RABBIT_HOLE_TAIL: &'static str =
    "; mov rbp, r10; mov rcx, r11; mov rdx, r12; jmp [rax + 8*rbx + rsi]; \", ";

/// The least count by which the rabbit hole rotates.
pub const MIN_ROTATION: usize = 1;

/// The bound below which the rabbit hole rotates.
pub const ROTATION_BOUND: usize = 33;

/// The arguments of the assembly macro for the rabbit hole that rotates by `rotation`.
pub open spec fn rabbit_hole_tokens(rotation: usize) -> Seq<char> {
    RABBIT_HOLE_HEAD@ + decimal(rotation as nat) + RABBIT_HOLE_MIDDLE@ + decimal(rotation as nat)
        + RABBIT_HOLE_TAIL@ + ASM_CLOBBER@
}

/// The dynamic rabbit hole: assembly that shuffles registers, rotates two of them by
/// `rotation`, and jumps to the address that they make up.
pub open spec fn rabbit_hole(rotation: usize) -> BlockView {
    asm_block(rabbit_hole_tokens(rotation))
}

/// The rabbit hole that rotates by `rotation`.
pub fn rabbit_hole_with(rotation: usize) -> (block: Block)
    ensures
        block@ == rabbit_hole(rotation),
{
    let mut tokens = String::from_str(RABBIT_HOLE_HEAD);
    push_decimal(&mut tokens, rotation as u64);
    tokens.append(RABBIT_HOLE_MIDDLE);
    push_decimal(&mut tokens, rotation as u64);
    tokens.append(RABBIT_HOLE_TAIL);
    tokens.append(ASM_CLOBBER);
    asm_block_with(tokens)
}

/// A rabbit hole whose rotation count is drawn at random.
pub fn generate_rabbit_hole() -> (block: Block)
    ensures
        exists|rotation: usize|
            MIN_ROTATION <= rotation < ROTATION_BOUND && block@ == #[trigger] rabbit_hole(
                rotation,
            ),
{
    let rotation = random_in_range(MIN_ROTATION, ROTATION_BOUND);
    let block = rabbit_hole_with(rotation);
    assert(block@ == rabbit_hole(rotation));
    block
}

} // verus!
