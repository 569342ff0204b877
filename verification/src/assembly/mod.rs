//! RISC-V assembly: the instructions, directives and sections a compiled program is made of.
use vstd::prelude::*;

use crate::ir::{BlockId, Dtype, SpecDtype};

pub mod write_asm;

verus! {
/// A whole assembly program.
#[derive(Debug)]
pub struct Asm {
    pub unit: TranslationUnit,
}

/// The functions and global variables of a program.
#[derive(Debug)]
pub struct TranslationUnit {
    pub functions: Vec<Section<Function>>,
    pub variables: Vec<Section<Variable>>,
}

/// An object file is made up of multiple sections, with each section corresponding to distinct
/// types of executable code or data.
#[derive(Debug)]
pub struct Section<T> {
    /// Section headers give size, offset, type, alignment and flags of the section.
    pub header: Vec<Directive>,
    pub body: T,
}

impl<T> Section<T> {
    /// A section with the given header and body.
    pub fn new(header: Vec<Directive>, body: T) -> (r: Self)
        ensures
            r.header == header,
            r.body == body,
    {
        Self { header, body }
    }
}

/// The code of a function, as a list of blocks.
#[derive(Debug)]
pub struct Function {
    pub blocks: Vec<Block>,
}

impl Function {
    /// A function made of `blocks`.
    pub fn new(blocks: Vec<Block>) -> (r: Self)
        ensures
            r.blocks == blocks,
    {
        Self { blocks }
    }
}

/// A global variable: its label and the directives that lay out its initial value.
#[derive(Debug)]
pub struct Variable {
    pub label: Label,
    pub directives: Vec<Directive>,
}

impl Variable {
    /// A variable with the given label and directives.
    pub fn new(label: Label, directives: Vec<Directive>) -> (r: Self)
        ensures
            r.label == label,
            r.directives == directives,
    {
        Self { label, directives }
    }
}

/// A basic block: an optional label and a list of instructions.
#[derive(Debug)]
pub struct Block {
    pub label: Option<Label>,
    pub instructions: Vec<Instruction>,
}

impl Block {
    /// A block with the given label and instructions.
    pub fn new(label: Option<Label>, instructions: Vec<Instruction>) -> (r: Self)
        ensures
            r.label == label,
            r.instructions == instructions,
    {
        Self { label, instructions }
    }
}

/// Assembler directives, which control the assembly of instructions into an object file.
#[derive(Debug)]
pub enum Directive {
    /// .align integer
    Align(usize),
    /// .globl symbol
    Globl(Label),
    /// .section section_type
    Section(SectionType),
    /// .type symbol, symbol_type
    Type(Label, SymbolType),
    /// .byte value
    Byte(u8),
    /// .half value
    Half(u16),
    /// .word value
    Word(u32),
    /// .quad value
    Quad(u64),
    /// .zero bytes
    Zero(usize),
}

/// The directive that stores `value` in `data_size` bytes: the low bytes of `value`.
pub open spec fn spec_directive_of_data_size(data_size: DataSize, value: u64) -> Directive {
    match data_size {
        DataSize::Byte => Directive::Byte(value as u8),
        DataSize::Half => Directive::Half(value as u16),
        DataSize::Word => Directive::Word(value as u32),
        DataSize::Double => Directive::Quad(value),
        DataSize::SinglePrecision => Directive::Word(value as u32),
        DataSize::DoublePrecision => Directive::Quad(value),
    }
}

impl Directive {
    /// The directive that stores the low `data_size` bytes of `value`.
    pub fn try_from_data_size(data_size: DataSize, value: u64) -> (r: Self)
        ensures
            r == spec_directive_of_data_size(data_size, value),
    {
        match data_size {
            DataSize::Byte => Self::Byte(value as u8),
            DataSize::Half => Self::Half(value as u16),
            DataSize::Word => Self::Word(value as u32),
            DataSize::Double => Self::Quad(value),
            DataSize::SinglePrecision => Self::Word(value as u32),
            DataSize::DoublePrecision => Self::Quad(value),
        }
    }
}

/// The kinds of sections.
#[derive(Debug, Clone, Copy, PartialEq, Eq, Structural)]
pub enum SectionType {
    Text,
    Data,
    Rodata,
    Bss,
}

/// The kinds of symbols.
#[derive(Debug, Clone, Copy, PartialEq, Eq, Structural)]
pub enum SymbolType {
    Function,
    Object,
}

/// An instruction, by its format.
#[derive(Debug)]
pub enum Instruction {
    /// R-type instruction format
    RType { instr: RType, rd: Register, rs1: Register, rs2: Option<Register> },
    /// I-type instruction format
    IType { instr: IType, rd: Register, rs1: Register, imm: Immediate },
    /// S-type instruction format
    SType { instr: SType, rs1: Register, rs2: Register, imm: Immediate },
    /// B-type instruction format
    BType { instr: BType, rs1: Register, rs2: Register, imm: Label },
    /// U-type instruction format
    UType { instr: UType, rd: Register, imm: Immediate },
    /// A pseudo-instruction.
    Pseudo(Pseudo),
}

/// R-type instructions. Where a variant holds `is_signed`, there are distinct instructions for
/// signed and unsigned operands.
#[derive(Debug, Clone, Copy, PartialEq, Eq, Structural)]
pub enum RType {
    Add(DataSize),
    Sub(DataSize),
    Sll(DataSize),
    Srl(DataSize),
    Sra(DataSize),
    Mul(DataSize),
    Div { data_size: DataSize, is_signed: bool },
    Rem { data_size: DataSize, is_signed: bool },
    Slt { is_signed: bool },
    Xor,
    Or,
    And,
    Fadd(DataSize),
    Fsub(DataSize),
    Fmul(DataSize),
    Fdiv(DataSize),
    Feq(DataSize),
    Flt(DataSize),
    /// fmv.w.x or fmv.d.x
    FmvIntToFloat { float_data_size: DataSize },
    /// fmv.x.w or fmv.x.d
    FmvFloatToInt { float_data_size: DataSize },
    /// fcvt.s.l(u), fcvt.d.l(u), fcvt.s.w(u) or fcvt.d.w(u)
    FcvtIntToFloat { int_data_size: DataSize, float_data_size: DataSize, is_signed: bool },
    /// fcvt.l(u).s, fcvt.l(u).d, fcvt.w(u).s or fcvt.w(u).d
    FcvtFloatToInt { float_data_size: DataSize, int_data_size: DataSize, is_signed: bool },
    /// fcvt.s.d or fcvt.d.s
    FcvtFloatToFloat { from: DataSize, to: DataSize },
}

/// The data size of `d` in machine words; `None` where it has none
/// (a type that is no integer, float or pointer, or one of an unusual size).
pub open spec fn spec_data_size(d: SpecDtype) -> Option<DataSize> {
    match d {
        SpecDtype::Int { width, .. } => if width == 0 {
            None
        } else {
            let size = (width - 1) / 8 + 1;
            if size == 1 {
                Some(DataSize::Byte)
            } else if size == 2 {
                Some(DataSize::Half)
            } else if size == 4 {
                Some(DataSize::Word)
            } else if size == 8 {
                Some(DataSize::Double)
            } else {
                None
            }
        },
        SpecDtype::Float { width, .. } => if width == 0 {
            None
        } else {
            let size = (width - 1) / 8 + 1;
            if size == 4 {
                Some(DataSize::SinglePrecision)
            } else if size == 8 {
                Some(DataSize::DoublePrecision)
            } else {
                None
            }
        },
        SpecDtype::Pointer { .. } => Some(DataSize::Double),
        _ => None,
    }
}

/// A 32-bit or 64-bit integer size.
pub open spec fn is_word_or_double(d: Option<DataSize>) -> bool {
    d == Some(DataSize::Word) || d == Some(DataSize::Double)
}

/// A floating-point size.
pub open spec fn is_float_size(d: Option<DataSize>) -> bool {
    d == Some(DataSize::SinglePrecision) || d == Some(DataSize::DoublePrecision)
}

/// The data size of an integer or word type that the arithmetic instructions take.
fn int_data_size(dtype: Dtype) -> (r: DataSize)
    requires
        is_word_or_double(spec_data_size(dtype@)),
    ensures
        Some(r) == spec_data_size(dtype@),
{
    DataSize::try_from(dtype).unwrap()
}

/// The data size of a floating-point type.
fn float_data_size(dtype: Dtype) -> (r: DataSize)
    requires
        is_float_size(spec_data_size(dtype@)),
    ensures
        Some(r) == spec_data_size(dtype@),
{
    DataSize::try_from(dtype).unwrap()
}

impl RType {
    pub fn add(dtype: Dtype) -> (r: Self)
        requires
            is_word_or_double(spec_data_size(dtype@)),
        ensures
            r == RType::Add(spec_data_size(dtype@)->Some_0),
    {
        Self::Add(int_data_size(dtype))
    }

    pub fn sub(dtype: Dtype) -> (r: Self)
        requires
            is_word_or_double(spec_data_size(dtype@)),
        ensures
            r == RType::Sub(spec_data_size(dtype@)->Some_0),
    {
        Self::Sub(int_data_size(dtype))
    }

    pub fn sll(dtype: Dtype) -> (r: Self)
        requires
            is_word_or_double(spec_data_size(dtype@)),
        ensures
            r == RType::Sll(spec_data_size(dtype@)->Some_0),
    {
        Self::Sll(int_data_size(dtype))
    }

    pub fn srl(dtype: Dtype) -> (r: Self)
        requires
            is_word_or_double(spec_data_size(dtype@)),
        ensures
            r == RType::Srl(spec_data_size(dtype@)->Some_0),
    {
        Self::Srl(int_data_size(dtype))
    }

    pub fn sra(dtype: Dtype) -> (r: Self)
        requires
            is_word_or_double(spec_data_size(dtype@)),
        ensures
            r == RType::Sra(spec_data_size(dtype@)->Some_0),
    {
        Self::Sra(int_data_size(dtype))
    }

    pub fn mul(dtype: Dtype) -> (r: Self)
        requires
            is_word_or_double(spec_data_size(dtype@)),
        ensures
            r == RType::Mul(spec_data_size(dtype@)->Some_0),
    {
        Self::Mul(int_data_size(dtype))
    }

    pub fn div(dtype: Dtype, is_signed: bool) -> (r: Self)
        requires
            is_word_or_double(spec_data_size(dtype@)),
        ensures
            r == (RType::Div { data_size: spec_data_size(dtype@)->Some_0, is_signed }),
    {
        Self::Div { data_size: int_data_size(dtype), is_signed }
    }

    pub fn rem(dtype: Dtype, is_signed: bool) -> (r: Self)
        requires
            is_word_or_double(spec_data_size(dtype@)),
        ensures
            r == (RType::Rem { data_size: spec_data_size(dtype@)->Some_0, is_signed }),
    {
        Self::Rem { data_size: int_data_size(dtype), is_signed }
    }

    pub fn fadd(dtype: Dtype) -> (r: Self)
        requires
            is_float_size(spec_data_size(dtype@)),
        ensures
            r == RType::Fadd(spec_data_size(dtype@)->Some_0),
    {
        Self::Fadd(float_data_size(dtype))
    }

    pub fn fsub(dtype: Dtype) -> (r: Self)
        requires
            is_float_size(spec_data_size(dtype@)),
        ensures
            r == RType::Fsub(spec_data_size(dtype@)->Some_0),
    {
        Self::Fsub(float_data_size(dtype))
    }

    pub fn fmul(dtype: Dtype) -> (r: Self)
        requires
            is_float_size(spec_data_size(dtype@)),
        ensures
            r == RType::Fmul(spec_data_size(dtype@)->Some_0),
    {
        Self::Fmul(float_data_size(dtype))
    }

    pub fn fdiv(dtype: Dtype) -> (r: Self)
        requires
            is_float_size(spec_data_size(dtype@)),
        ensures
            r == RType::Fdiv(spec_data_size(dtype@)->Some_0),
    {
        Self::Fdiv(float_data_size(dtype))
    }

    pub fn feq(dtype: Dtype) -> (r: Self)
        requires
            is_float_size(spec_data_size(dtype@)),
        ensures
            r == RType::Feq(spec_data_size(dtype@)->Some_0),
    {
        Self::Feq(float_data_size(dtype))
    }

    pub fn flt(dtype: Dtype) -> (r: Self)
        requires
            is_float_size(spec_data_size(dtype@)),
        ensures
            r == RType::Flt(spec_data_size(dtype@)->Some_0),
    {
        Self::Flt(float_data_size(dtype))
    }

    pub fn fmv_int_to_float(dtype: Dtype) -> (r: Self)
        requires
            is_float_size(spec_data_size(dtype@)),
        ensures
            r == (RType::FmvIntToFloat { float_data_size: spec_data_size(dtype@)->Some_0 }),
    {
        Self::FmvIntToFloat { float_data_size: float_data_size(dtype) }
    }

    pub fn fmv_float_to_int(dtype: Dtype) -> (r: Self)
        requires
            is_float_size(spec_data_size(dtype@)),
        ensures
            r == (RType::FmvFloatToInt { float_data_size: spec_data_size(dtype@)->Some_0 }),
    {
        Self::FmvFloatToInt { float_data_size: float_data_size(dtype) }
    }

    /// Conversion from the integer type `from` to the floating-point type `to`.
    pub fn fcvt_int_to_float(from: Dtype, to: Dtype) -> (r: Self)
        requires
            from@ is Int,
            is_word_or_double(spec_data_size(from@)),
            is_float_size(spec_data_size(to@)),
        ensures
            r == (RType::FcvtIntToFloat {
                int_data_size: spec_data_size(from@)->Some_0,
                float_data_size: spec_data_size(to@)->Some_0,
                is_signed: from@->Int_is_signed,
            }),
    {
        let is_signed = from.is_int_signed();
        let int_data_size = int_data_size(from);
        let float_data_size = float_data_size(to);
        Self::FcvtIntToFloat { int_data_size, float_data_size, is_signed }
    }

    /// Conversion from the floating-point type `from` to the integer type `to`.
    pub fn fcvt_float_to_int(from: Dtype, to: Dtype) -> (r: Self)
        requires
            is_float_size(spec_data_size(from@)),
            to@ is Int,
            is_word_or_double(spec_data_size(to@)),
        ensures
            r == (RType::FcvtFloatToInt {
                float_data_size: spec_data_size(from@)->Some_0,
                int_data_size: spec_data_size(to@)->Some_0,
                is_signed: to@->Int_is_signed,
            }),
    {
        let float_data_size = float_data_size(from);
        let is_signed = to.is_int_signed();
        let int_data_size = int_data_size(to);
        Self::FcvtFloatToInt { float_data_size, int_data_size, is_signed }
    }
}

/// I-type instructions.
#[derive(Debug, Clone, Copy, PartialEq, Eq, Structural)]
pub enum IType {
    Load { data_size: DataSize, is_signed: bool },
    Addi(DataSize),
    Xori,
    Ori,
    Andi,
    Slli(DataSize),
    Srli(DataSize),
    Srai(DataSize),
    Slti { is_signed: bool },
}

impl IType {
    /// The load of a value of type `dtype`: signed as the integer type is, unsigned for other
    /// types, and always signed for double words.
    pub fn load(dtype: Dtype) -> (r: Self)
        requires
            spec_data_size(dtype@) is Some,
        ensures
            r == (IType::Load {
                data_size: spec_data_size(dtype@)->Some_0,
                is_signed: spec_data_size(dtype@) == Some(DataSize::Double) || (dtype@ matches SpecDtype::Int {
                    is_signed,
                    ..
                } && is_signed),
            }),
    {
        let is_signed = if dtype.get_int_width().is_some() {
            dtype.is_int_signed()
        } else {
            false
        };
        let data_size = DataSize::try_from(dtype).unwrap();
        let is_signed = if data_size == DataSize::Double {
            true
        } else {
            is_signed
        };
        Self::Load { data_size, is_signed }
    }

    pub fn slli(dtype: Dtype) -> (r: Self)
        requires
            is_word_or_double(spec_data_size(dtype@)),
        ensures
            r == IType::Slli(spec_data_size(dtype@)->Some_0),
    {
        Self::Slli(int_data_size(dtype))
    }

    pub fn srli(dtype: Dtype) -> (r: Self)
        requires
            is_word_or_double(spec_data_size(dtype@)),
        ensures
            r == IType::Srli(spec_data_size(dtype@)->Some_0),
    {
        Self::Srli(int_data_size(dtype))
    }

    pub fn srai(dtype: Dtype) -> (r: Self)
        requires
            is_word_or_double(spec_data_size(dtype@)),
        ensures
            r == IType::Srai(spec_data_size(dtype@)->Some_0),
    {
        Self::Srai(int_data_size(dtype))
    }
}

/// S-type instructions.
#[derive(Debug, Clone, Copy, PartialEq, Eq, Structural)]
pub enum SType {
    Store(DataSize),
}

impl SType {
    /// The store of a value of type `dtype`.
    pub fn store(dtype: Dtype) -> (r: Self)
        requires
            spec_data_size(dtype@) is Some,
        ensures
            r == SType::Store(spec_data_size(dtype@)->Some_0),
    {
        Self::Store(DataSize::try_from(dtype).unwrap())
    }
}

/// B-type instructions.
#[derive(Debug, Clone, Copy, PartialEq, Eq, Structural)]
pub enum BType {
    Beq,
    Bne,
    Blt { is_signed: bool },
    Bge { is_signed: bool },
}

/// U-type instructions.
#[derive(Debug, Clone, Copy, PartialEq, Eq, Structural)]
pub enum UType {
    Lui,
}

/// Pseudo-instructions the assembler expands into instructions of the base ISA.
#[derive(Debug)]
pub enum Pseudo {
    /// la rd, symbol
    La { rd: Register, symbol: Label },
    /// li rd, immediate (a 64-bit architecture)
    Li { rd: Register, imm: u64 },
    /// mv rd, rs
    Mv { rd: Register, rs: Register },
    /// fmv.s rd, rs or fmv.d rd, rs
    Fmv { data_size: DataSize, rd: Register, rs: Register },
    /// neg(w) rd, rs
    Neg { data_size: DataSize, rd: Register, rs: Register },
    /// sext.w rd, rs
    SextW { rd: Register, rs: Register },
    /// seqz rd, rs
    Seqz { rd: Register, rs: Register },
    /// snez rd, rs
    Snez { rd: Register, rs: Register },
    /// fneg.s rd, rs or fneg.d rd, rs
    Fneg { data_size: DataSize, rd: Register, rs: Register },
    /// j offset
    J { offset: Label },
    /// jr rs
    Jr { rs: Register },
    /// jalr rs
    Jalr { rs: Register },
    /// ret
    Ret,
    /// call offset
    Call { offset: Label },
}

impl Pseudo {
    /// Integer negation of a value of type `dtype`.
    pub fn neg(dtype: Dtype, rd: Register, rs: Register) -> (r: Self)
        requires
            is_word_or_double(spec_data_size(dtype@)),
        ensures
            r == (Pseudo::Neg { data_size: spec_data_size(dtype@)->Some_0, rd, rs }),
    {
        Self::Neg { data_size: int_data_size(dtype), rd, rs }
    }

    /// Floating-point negation of a value of type `dtype`.
    pub fn fneg(dtype: Dtype, rd: Register, rs: Register) -> (r: Self)
        requires
            is_float_size(spec_data_size(dtype@)),
        ensures
            r == (Pseudo::Fneg { data_size: spec_data_size(dtype@)->Some_0, rd, rs }),
    {
        Self::Fneg { data_size: float_data_size(dtype), rd, rs }
    }
}

/// An immediate operand.
#[derive(Debug)]
pub enum Immediate {
    /// A value (a 64-bit architecture).
    Value(u64),
    /// %hi(symbol) or %lo(symbol)
    Relocation { relocation: RelocationFunction, symbol: Label },
}

impl Immediate {
    /// The immediate `relocation(symbol)`.
    pub fn relocation(relocation: RelocationFunction, symbol: Label) -> (r: Self)
        ensures
            r == (Immediate::Relocation { relocation, symbol }),
    {
        Self::Relocation { relocation, symbol }
    }
}

/// Relocation functions, resolved at link time.
#[derive(Debug, Clone, Copy, PartialEq, Eq, Structural)]
pub enum RelocationFunction {
    /// %hi
    Hi20,
    /// %lo
    Lo12,
}

/// A label: a branch target, a jump target or a symbol.
#[derive(Debug)]
pub struct Label(pub String);

/// Sizes of data in memory.
#[derive(Debug, Clone, Copy, PartialEq, Eq, Structural)]
pub enum DataSize {
    Byte,
    Half,
    Word,
    Double,
    SinglePrecision,
    DoublePrecision,
}

impl DataSize {
    /// The data size of a value of type `dtype`: by its size in bytes, and whether it is a float.
    pub fn try_from(dtype: Dtype) -> (r: Result<Self, ()>)
        requires
            spec_data_size(dtype@) is Some,
        ensures
            r == Ok::<DataSize, ()>(spec_data_size(dtype@)->Some_0),
    {
        let (size, is_float) = match dtype {
            Dtype::Int { width, .. } => ((width - 1) / Dtype::BITS_OF_BYTE + 1, false),
            Dtype::Float { width, .. } => ((width - 1) / Dtype::BITS_OF_BYTE + 1, true),
            _ => (Dtype::SIZE_OF_POINTER, false),
        };
        if !is_float {
            if size == Dtype::SIZE_OF_CHAR {
                Ok(Self::Byte)
            } else if size == Dtype::SIZE_OF_SHORT {
                Ok(Self::Half)
            } else if size == Dtype::SIZE_OF_INT {
                Ok(Self::Word)
            } else {
                Ok(Self::Double)
            }
        } else if size == Dtype::SIZE_OF_FLOAT {
            Ok(Self::SinglePrecision)
        } else {
            Ok(Self::DoublePrecision)
        }
    }

    /// Whether the size is one of an integer.
    pub fn is_integer(&self) -> (r: bool)
        ensures
            r == (*self == DataSize::Byte || *self == DataSize::Half || *self == DataSize::Word
                || *self == DataSize::Double),
    {
        match self {
            Self::Byte | Self::Half | Self::Word | Self::Double => true,
            _ => false,
        }
    }

    /// Whether the size is one of a float.
    pub fn is_floating_point(&self) -> (r: bool)
        ensures
            r == (*self == DataSize::SinglePrecision || *self == DataSize::DoublePrecision),
    {
        match self {
            Self::SinglePrecision | Self::DoublePrecision => true,
            _ => false,
        }
    }

    /// `Some(self)` for a word, `None` for any other size.
    pub fn word(self) -> (r: Option<Self>)
        ensures
            r == (if self == DataSize::Word {
                Some(self)
            } else {
                None
            }),
    {
        if self == DataSize::Word {
            Some(self)
        } else {
            None
        }
    }
}

/// ABI names of the RISC-V integer and floating-point registers.
#[derive(Debug, Clone, Copy, PartialEq, Eq, Structural)]
pub enum Register {
    Zero,
    Ra,
    Sp,
    Gp,
    Tp,
    /// E.g., t0
    Temp(RegisterType, usize),
    /// E.g., s0
    Saved(RegisterType, usize),
    /// E.g., a0
    Arg(RegisterType, usize),
}

impl Register {
    /// Temporary register `id`: t0 to t6, or ft0 to ft11.
    pub fn temp(register_type: RegisterType, id: usize) -> (r: Self)
        requires
            register_type == RegisterType::Integer ==> id <= 6,
            register_type == RegisterType::FloatingPoint ==> id <= 11,
        ensures
            r == Register::Temp(register_type, id),
    {
        Self::Temp(register_type, id)
    }

    /// Saved register `id`: s0 to s11, or fs0 to fs11.
    pub fn saved(register_type: RegisterType, id: usize) -> (r: Self)
        requires
            id <= 11,
        ensures
            r == Register::Saved(register_type, id),
    {
        Self::Saved(register_type, id)
    }

    /// Argument register `id`: a0 to a7, or fa0 to fa7.
    pub fn arg(register_type: RegisterType, id: usize) -> (r: Self)
        requires
            id <= 7,
        ensures
            r == Register::Arg(register_type, id),
    {
        Self::Arg(register_type, id)
    }
}

/// The two register files.
#[derive(Debug, Clone, Copy, PartialEq, Eq, Structural)]
pub enum RegisterType {
    Integer,
    FloatingPoint,
}

} // verus!
