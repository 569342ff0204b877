//! The textual form of assembly programs.
use vstd::prelude::*;

use super::{
    BType, DataSize, Directive, IType, Immediate, Instruction, Label, Pseudo, RType, Register,
    RegisterType, RelocationFunction, SType, SectionType, SymbolType, UType,
};
use super::{Asm, Block, Function, Section, TranslationUnit, Variable};
use crate::ir::BlockId;
use crate::write_base::{indent_text, write_indent, WriteLine};
use crate::utils::{decimal, hex, push_decimal, push_hex, push_signed_u64, signed_decimal, signed_u64};

verus! {

/// `w` for a word, nothing for any other size: the suffix of instructions on 32-bit words.
pub open spec fn word_suffix(data_size: DataSize) -> Seq<char> {
    if data_size == DataSize::Word {
        "w"@
    } else {
        ""@
    }
}

fn word_suffix_str(data_size: DataSize) -> (r: &'static str)
    ensures
        r@ == word_suffix(data_size),
{
    if data_size == DataSize::Word {
        "w"
    } else {
        ""
    }
}

/// Nothing when signed, `u` when unsigned.
pub open spec fn sign_suffix(is_signed: bool) -> Seq<char> {
    if is_signed {
        ""@
    } else {
        "u"@
    }
}

fn sign_suffix_str(is_signed: bool) -> (r: &'static str)
    ensures
        r@ == sign_suffix(is_signed),
{
    if is_signed {
        ""
    } else {
        "u"
    }
}

/// `w` for single precision, `d` otherwise: the letter of float loads, stores and moves.
pub open spec fn float_letter(data_size: DataSize) -> Seq<char> {
    if data_size == DataSize::SinglePrecision {
        "w"@
    } else {
        "d"@
    }
}

fn float_letter_str(data_size: DataSize) -> (r: &'static str)
    ensures
        r@ == float_letter(data_size),
{
    if data_size == DataSize::SinglePrecision {
        "w"
    } else {
        "d"
    }
}

/// `w` for a word, `l` otherwise: the integer letter of conversions.
pub open spec fn int_letter(data_size: DataSize) -> Seq<char> {
    if data_size == DataSize::Word {
        "w"@
    } else {
        "l"@
    }
}

fn int_letter_str(data_size: DataSize) -> (r: &'static str)
    ensures
        r@ == int_letter(data_size),
{
    if data_size == DataSize::Word {
        "w"
    } else {
        "l"
    }
}

impl DataSize {
    /// The textual form: `b`, `h`, `w`, `d`, `s` or `d`.
    pub open spec fn text(self) -> Seq<char> {
        match self {
            DataSize::Byte => "b"@,
            DataSize::Half => "h"@,
            DataSize::Word => "w"@,
            DataSize::Double => "d"@,
            DataSize::SinglePrecision => "s"@,
            DataSize::DoublePrecision => "d"@,
        }
    }

    fn text_str(&self) -> (r: &'static str)
        ensures
            r@ == self.text(),
    {
        match self {
            DataSize::Byte => "b",
            DataSize::Half => "h",
            DataSize::Word => "w",
            DataSize::Double => "d",
            DataSize::SinglePrecision => "s",
            DataSize::DoublePrecision => "d",
        }
    }

    /// The textual form.
    pub fn to_string(&self) -> (r: String)
        ensures
            r@ == self.text(),
    {
        String::from_str(self.text_str())
    }
}

impl SectionType {
    /// The textual form: `.text`, `.data`, `.rodata` or `.bss`.
    pub open spec fn text(self) -> Seq<char> {
        match self {
            SectionType::Text => ".text"@,
            SectionType::Data => ".data"@,
            SectionType::Rodata => ".rodata"@,
            SectionType::Bss => ".bss"@,
        }
    }

    /// The textual form.
    pub fn to_string(&self) -> (r: String)
        ensures
            r@ == self.text(),
    {
        match self {
            SectionType::Text => String::from_str(".text"),
            SectionType::Data => String::from_str(".data"),
            SectionType::Rodata => String::from_str(".rodata"),
            SectionType::Bss => String::from_str(".bss"),
        }
    }
}

impl SymbolType {
    /// The textual form: `@function` or `@object`.
    pub open spec fn text(self) -> Seq<char> {
        match self {
            SymbolType::Function => "@function"@,
            SymbolType::Object => "@object"@,
        }
    }

    /// The textual form.
    pub fn to_string(&self) -> (r: String)
        ensures
            r@ == self.text(),
    {
        match self {
            SymbolType::Function => String::from_str("@function"),
            SymbolType::Object => String::from_str("@object"),
        }
    }
}

impl RegisterType {
    /// The prefix of register names of this kind: `f` for floating point, nothing for integer.
    pub open spec fn text(self) -> Seq<char> {
        match self {
            RegisterType::FloatingPoint => "f"@,
            RegisterType::Integer => ""@,
        }
    }

    fn text_str(&self) -> (r: &'static str)
        ensures
            r@ == self.text(),
    {
        match self {
            RegisterType::FloatingPoint => "f",
            RegisterType::Integer => "",
        }
    }

    /// The textual form.
    pub fn to_string(&self) -> (r: String)
        ensures
            r@ == self.text(),
    {
        String::from_str(self.text_str())
    }
}

impl Register {
    /// The ABI name: `zero`, `ra`, `sp`, `gp`, `tp`, or a kind prefix, `t`, `s` or `a`, and the
    /// number.
    pub open spec fn text(self) -> Seq<char> {
        match self {
            Register::Zero => "zero"@,
            Register::Ra => "ra"@,
            Register::Sp => "sp"@,
            Register::Gp => "gp"@,
            Register::Tp => "tp"@,
            Register::Temp(t, id) => t.text() + "t"@ + decimal(id as nat),
            Register::Saved(t, id) => t.text() + "s"@ + decimal(id as nat),
            Register::Arg(t, id) => t.text() + "a"@ + decimal(id as nat),
        }
    }

    /// Appends the ABI name to `out`.
    pub fn push_to(&self, out: &mut String)
        ensures
            final(out)@ == old(out)@ + self.text(),
    {
        match self {
            Register::Zero => out.append("zero"),
            Register::Ra => out.append("ra"),
            Register::Sp => out.append("sp"),
            Register::Gp => out.append("gp"),
            Register::Tp => out.append("tp"),
            Register::Temp(t, id) => {
                out.append(t.text_str());
                out.append("t");
                push_decimal(out, *id as u128);
            },
            Register::Saved(t, id) => {
                out.append(t.text_str());
                out.append("s");
                push_decimal(out, *id as u128);
            },
            Register::Arg(t, id) => {
                out.append(t.text_str());
                out.append("a");
                push_decimal(out, *id as u128);
            },
        }
        assert(out@ =~= old(out)@ + self.text());
    }

    /// The ABI name.
    pub fn to_string(&self) -> (r: String)
        ensures
            r@ == self.text(),
    {
        let mut s = String::new();
        self.push_to(&mut s);
        assert(s@ =~= self.text());
        s
    }
}

impl Label {
    /// The textual form: the name itself.
    pub open spec fn text(self) -> Seq<char> {
        self.0@
    }

    /// The textual form.
    pub fn to_string(&self) -> (r: String)
        ensures
            r@ == self.text(),
    {
        self.0.clone()
    }

    /// The label of block `block_id` of function `name`: `.<name>_L<id>`.
    pub fn new(name: &str, block_id: BlockId) -> (r: Self)
        ensures
            r.text() == "."@ + name@ + "_L"@ + decimal(block_id.0 as nat),
    {
        let mut s = String::from_str(".");
        s.append(name);
        s.append("_L");
        push_decimal(&mut s, block_id.0 as u128);
        Label(s)
    }
}

impl RelocationFunction {
    /// The textual form: `%hi` or `%lo`.
    pub open spec fn text(self) -> Seq<char> {
        match self {
            RelocationFunction::Hi20 => "%hi"@,
            RelocationFunction::Lo12 => "%lo"@,
        }
    }

    /// The textual form.
    pub fn to_string(&self) -> (r: String)
        ensures
            r@ == self.text(),
    {
        match self {
            RelocationFunction::Hi20 => String::from_str("%hi"),
            RelocationFunction::Lo12 => String::from_str("%lo"),
        }
    }
}

impl Immediate {
    /// The textual form: a value as a signed 64-bit number, or `%hi(symbol)` / `%lo(symbol)`.
    pub open spec fn text(self) -> Seq<char> {
        match self {
            Immediate::Value(v) => signed_decimal(signed_u64(v)),
            Immediate::Relocation { relocation, symbol } => relocation.text() + "("@ + symbol.text()
                + ")"@,
        }
    }

    /// Appends the textual form to `out`.
    pub fn push_to(&self, out: &mut String)
        ensures
            final(out)@ == old(out)@ + self.text(),
    {
        match self {
            Immediate::Value(v) => push_signed_u64(out, *v),
            Immediate::Relocation { relocation, symbol } => {
                let r = relocation.to_string();
                out.append(r.as_str());
                out.append("(");
                out.append(symbol.0.as_str());
                out.append(")");
            },
        }
        assert(out@ =~= old(out)@ + self.text());
    }

    /// The textual form.
    pub fn to_string(&self) -> (r: String)
        ensures
            r@ == self.text(),
    {
        let mut s = String::new();
        self.push_to(&mut s);
        assert(s@ =~= self.text());
        s
    }
}

impl Directive {
    /// The textual form: the directive's name, a tab and its operands; numbers of data
    /// directives in hexadecimal with a `0x` prefix.
    pub open spec fn text(self) -> Seq<char> {
        match self {
            Directive::Align(v) => ".align\t"@ + decimal(v as nat),
            Directive::Globl(label) => ".globl\t"@ + label.text(),
            Directive::Type(symbol, symbol_type) => ".type\t"@ + symbol.text() + ", "@
                + symbol_type.text(),
            Directive::Section(section_type) => ".section\t"@ + section_type.text(),
            Directive::Byte(v) => ".byte\t0x"@ + hex(v as nat),
            Directive::Half(v) => ".half\t0x"@ + hex(v as nat),
            Directive::Word(v) => ".word\t0x"@ + hex(v as nat),
            Directive::Quad(v) => ".quad\t0x"@ + hex(v as nat),
            Directive::Zero(v) => ".zero\t0x"@ + hex(v as nat),
        }
    }

    /// The textual form.
    pub fn to_string(&self) -> (r: String)
        ensures
            r@ == self.text(),
    {
        let mut s;
        match self {
            Directive::Align(v) => {
                s = String::from_str(".align\t");
                push_decimal(&mut s, *v as u128);
            },
            Directive::Globl(label) => {
                s = String::from_str(".globl\t");
                s.append(label.0.as_str());
            },
            Directive::Type(symbol, symbol_type) => {
                s = String::from_str(".type\t");
                s.append(symbol.0.as_str());
                s.append(", ");
                let t = symbol_type.to_string();
                s.append(t.as_str());
            },
            Directive::Section(section_type) => {
                s = String::from_str(".section\t");
                let t = section_type.to_string();
                s.append(t.as_str());
            },
            Directive::Byte(v) => {
                s = String::from_str(".byte\t0x");
                push_hex(&mut s, *v as u128);
            },
            Directive::Half(v) => {
                s = String::from_str(".half\t0x");
                push_hex(&mut s, *v as u128);
            },
            Directive::Word(v) => {
                s = String::from_str(".word\t0x");
                push_hex(&mut s, *v as u128);
            },
            Directive::Quad(v) => {
                s = String::from_str(".quad\t0x");
                push_hex(&mut s, *v as u128);
            },
            Directive::Zero(v) => {
                s = String::from_str(".zero\t0x");
                push_hex(&mut s, *v as u128);
            },
        }
        assert(s@ =~= self.text());
        s
    }
}

impl RType {
    /// The operands of the instruction are of the sizes its textual form needs: floats where a
    /// float letter is printed, a word or a double where an integer letter is.
    pub open spec fn renderable(self) -> bool {
        match self {
            RType::FmvFloatToInt { float_data_size } => float_data_size is SinglePrecision
                || float_data_size is DoublePrecision,
            RType::FmvIntToFloat { float_data_size } => float_data_size is SinglePrecision
                || float_data_size is DoublePrecision,
            RType::FcvtFloatToInt { float_data_size, int_data_size, .. } => (float_data_size
                is SinglePrecision || float_data_size is DoublePrecision) && (int_data_size is Word
                || int_data_size is Double),
            RType::FcvtIntToFloat { int_data_size, float_data_size, .. } => (float_data_size
                is SinglePrecision || float_data_size is DoublePrecision) && (int_data_size is Word
                || int_data_size is Double),
            RType::FcvtFloatToFloat { from, to } => (from is SinglePrecision || from is DoublePrecision)
                && (to is SinglePrecision || to is DoublePrecision),
            _ => true,
        }
    }

    /// The sizes of the instruction are ones its mnemonic tells apart: a word or a double for an
    /// integer operation, single or double precision for a float operation.
    pub open spec fn sizes_distinguished(self) -> bool {
        match self {
            RType::Add(d) | RType::Sub(d) | RType::Sll(d) | RType::Srl(d) | RType::Sra(d) | RType::Mul(d) => d is Word
                || d is Double,
            RType::Div { data_size, .. } | RType::Rem { data_size, .. } => data_size is Word || data_size is Double,
            RType::Fadd(d) | RType::Fsub(d) | RType::Fmul(d) | RType::Fdiv(d) | RType::Feq(d) | RType::Flt(d) => d
                is SinglePrecision || d is DoublePrecision,
            _ => self.renderable(),
        }
    }

    /// The mnemonic.
    pub open spec fn text(self) -> Seq<char> {
        match self {
            RType::Add(d) => "add"@ + word_suffix(d),
            RType::Sub(d) => "sub"@ + word_suffix(d),
            RType::Sll(d) => "sll"@ + word_suffix(d),
            RType::Srl(d) => "srl"@ + word_suffix(d),
            RType::Sra(d) => "sra"@ + word_suffix(d),
            RType::Mul(d) => "mul"@ + word_suffix(d),
            RType::Div { data_size, is_signed } => "div"@ + sign_suffix(is_signed) + word_suffix(
                data_size,
            ),
            RType::Rem { data_size, is_signed } => "rem"@ + sign_suffix(is_signed) + word_suffix(
                data_size,
            ),
            RType::Slt { is_signed } => "slt"@ + sign_suffix(is_signed),
            RType::Xor => "xor"@,
            RType::Or => "or"@,
            RType::And => "and"@,
            RType::Fadd(d) => "fadd."@ + d.text(),
            RType::Fsub(d) => "fsub."@ + d.text(),
            RType::Fmul(d) => "fmul."@ + d.text(),
            RType::Fdiv(d) => "fdiv."@ + d.text(),
            RType::Feq(d) => "feq."@ + d.text(),
            RType::Flt(d) => "flt."@ + d.text(),
            RType::FmvFloatToInt { float_data_size } => "fmv.x."@ + float_letter(float_data_size),
            RType::FmvIntToFloat { float_data_size } => "fmv."@ + float_letter(float_data_size)
                + ".x"@,
            RType::FcvtFloatToInt { float_data_size, int_data_size, is_signed } => "fcvt."@
                + int_letter(int_data_size) + sign_suffix(is_signed) + "."@ + float_data_size.text(),
            RType::FcvtIntToFloat { int_data_size, float_data_size, is_signed } => "fcvt."@
                + float_data_size.text() + "."@ + int_letter(int_data_size) + sign_suffix(is_signed),
            RType::FcvtFloatToFloat { from, to } => "fcvt."@ + to.text() + "."@ + from.text(),
        }
    }

    /// The mnemonic.
    pub fn to_string(&self) -> (r: String)
        requires
            self.renderable(),
        ensures
            r@ == self.text(),
    {
        let mut s;
        match self {
            RType::Add(d) => {
                s = String::from_str("add");
                s.append(word_suffix_str(*d));
            },
            RType::Sub(d) => {
                s = String::from_str("sub");
                s.append(word_suffix_str(*d));
            },
            RType::Sll(d) => {
                s = String::from_str("sll");
                s.append(word_suffix_str(*d));
            },
            RType::Srl(d) => {
                s = String::from_str("srl");
                s.append(word_suffix_str(*d));
            },
            RType::Sra(d) => {
                s = String::from_str("sra");
                s.append(word_suffix_str(*d));
            },
            RType::Mul(d) => {
                s = String::from_str("mul");
                s.append(word_suffix_str(*d));
            },
            RType::Div { data_size, is_signed } => {
                s = String::from_str("div");
                s.append(sign_suffix_str(*is_signed));
                s.append(word_suffix_str(*data_size));
            },
            RType::Rem { data_size, is_signed } => {
                s = String::from_str("rem");
                s.append(sign_suffix_str(*is_signed));
                s.append(word_suffix_str(*data_size));
            },
            RType::Slt { is_signed } => {
                s = String::from_str("slt");
                s.append(sign_suffix_str(*is_signed));
            },
            RType::Xor => {
                s = String::from_str("xor");
            },
            RType::Or => {
                s = String::from_str("or");
            },
            RType::And => {
                s = String::from_str("and");
            },
            RType::Fadd(d) => {
                s = String::from_str("fadd.");
                s.append(d.text_str());
            },
            RType::Fsub(d) => {
                s = String::from_str("fsub.");
                s.append(d.text_str());
            },
            RType::Fmul(d) => {
                s = String::from_str("fmul.");
                s.append(d.text_str());
            },
            RType::Fdiv(d) => {
                s = String::from_str("fdiv.");
                s.append(d.text_str());
            },
            RType::Feq(d) => {
                s = String::from_str("feq.");
                s.append(d.text_str());
            },
            RType::Flt(d) => {
                s = String::from_str("flt.");
                s.append(d.text_str());
            },
            RType::FmvFloatToInt { float_data_size } => {
                s = String::from_str("fmv.x.");
                s.append(float_letter_str(*float_data_size));
            },
            RType::FmvIntToFloat { float_data_size } => {
                s = String::from_str("fmv.");
                s.append(float_letter_str(*float_data_size));
                s.append(".x");
            },
            RType::FcvtFloatToInt { float_data_size, int_data_size, is_signed } => {
                s = String::from_str("fcvt.");
                s.append(int_letter_str(*int_data_size));
                s.append(sign_suffix_str(*is_signed));
                s.append(".");
                s.append(float_data_size.text_str());
            },
            RType::FcvtIntToFloat { int_data_size, float_data_size, is_signed } => {
                s = String::from_str("fcvt.");
                s.append(float_data_size.text_str());
                s.append(".");
                s.append(int_letter_str(*int_data_size));
                s.append(sign_suffix_str(*is_signed));
            },
            RType::FcvtFloatToFloat { from, to } => {
                s = String::from_str("fcvt.");
                s.append(to.text_str());
                s.append(".");
                s.append(from.text_str());
            },
        }
        assert(s@ =~= self.text());
        s
    }
}

impl IType {
    /// The sizes of the instruction are ones its mnemonic tells apart: a word or a double for an
    /// addition or a shift.
    pub open spec fn sizes_distinguished(self) -> bool {
        match self {
            IType::Addi(d) | IType::Slli(d) | IType::Srli(d) | IType::Srai(d) => d is Word || d is Double,
            _ => true,
        }
    }

    /// The mnemonic.
    pub open spec fn text(self) -> Seq<char> {
        match self {
            IType::Load { data_size, is_signed } => if data_size is Byte || data_size is Half
                || data_size is Word || data_size is Double {
                "l"@ + data_size.text() + sign_suffix(is_signed)
            } else {
                "fl"@ + float_letter(data_size)
            },
            IType::Addi(d) => "addi"@ + word_suffix(d),
            IType::Xori => "xori"@,
            IType::Ori => "ori"@,
            IType::Andi => "andi"@,
            IType::Slli(d) => "slli"@ + word_suffix(d),
            IType::Srli(d) => "srli"@ + word_suffix(d),
            IType::Srai(d) => "srai"@ + word_suffix(d),
            IType::Slti { is_signed } => "slti"@ + sign_suffix(is_signed),
        }
    }

    /// The mnemonic.
    pub fn to_string(&self) -> (r: String)
        ensures
            r@ == self.text(),
    {
        let mut s;
        match self {
            IType::Load { data_size, is_signed } => {
                if data_size.is_integer() {
                    s = String::from_str("l");
                    s.append(data_size.text_str());
                    s.append(sign_suffix_str(*is_signed));
                } else {
                    s = String::from_str("fl");
                    s.append(float_letter_str(*data_size));
                }
            },
            IType::Addi(d) => {
                s = String::from_str("addi");
                s.append(word_suffix_str(*d));
            },
            IType::Xori => {
                s = String::from_str("xori");
            },
            IType::Ori => {
                s = String::from_str("ori");
            },
            IType::Andi => {
                s = String::from_str("andi");
            },
            IType::Slli(d) => {
                s = String::from_str("slli");
                s.append(word_suffix_str(*d));
            },
            IType::Srli(d) => {
                s = String::from_str("srli");
                s.append(word_suffix_str(*d));
            },
            IType::Srai(d) => {
                s = String::from_str("srai");
                s.append(word_suffix_str(*d));
            },
            IType::Slti { is_signed } => {
                s = String::from_str("slti");
                s.append(sign_suffix_str(*is_signed));
            },
        }
        assert(s@ =~= self.text());
        s
    }
}

impl SType {
    /// The mnemonic.
    pub open spec fn text(self) -> Seq<char> {
        match self {
            SType::Store(data_size) => if data_size is Byte || data_size is Half || data_size is Word
                || data_size is Double {
                "s"@ + data_size.text()
            } else {
                "fs"@ + float_letter(data_size)
            },
        }
    }

    /// The mnemonic.
    pub fn to_string(&self) -> (r: String)
        ensures
            r@ == self.text(),
    {
        let mut s;
        match self {
            SType::Store(data_size) => {
                if data_size.is_integer() {
                    s = String::from_str("s");
                    s.append(data_size.text_str());
                } else {
                    s = String::from_str("fs");
                    s.append(float_letter_str(*data_size));
                }
            },
        }
        assert(s@ =~= self.text());
        s
    }
}

impl BType {
    /// The mnemonic.
    pub open spec fn text(self) -> Seq<char> {
        match self {
            BType::Beq => "beq"@,
            BType::Bne => "bne"@,
            BType::Blt { is_signed } => "blt"@ + sign_suffix(is_signed),
            BType::Bge { is_signed } => "bge"@ + sign_suffix(is_signed),
        }
    }

    /// The mnemonic.
    pub fn to_string(&self) -> (r: String)
        ensures
            r@ == self.text(),
    {
        let mut s;
        match self {
            BType::Beq => {
                s = String::from_str("beq");
            },
            BType::Bne => {
                s = String::from_str("bne");
            },
            BType::Blt { is_signed } => {
                s = String::from_str("blt");
                s.append(sign_suffix_str(*is_signed));
            },
            BType::Bge { is_signed } => {
                s = String::from_str("bge");
                s.append(sign_suffix_str(*is_signed));
            },
        }
        assert(s@ =~= self.text());
        s
    }
}

impl UType {
    /// The mnemonic.
    pub open spec fn text(self) -> Seq<char> {
        match self {
            UType::Lui => "lui"@,
        }
    }

    /// The mnemonic.
    pub fn to_string(&self) -> (r: String)
        ensures
            r@ == self.text(),
    {
        match self {
            UType::Lui => String::from_str("lui"),
        }
    }
}

impl Pseudo {
    /// The textual form: the mnemonic, a tab and the operands separated by commas.
    pub open spec fn text(self) -> Seq<char> {
        match self {
            Pseudo::La { rd, symbol } => "la\t"@ + rd.text() + ","@ + symbol.text(),
            Pseudo::Li { rd, imm } => "li\t"@ + rd.text() + ","@ + signed_decimal(signed_u64(imm)),
            Pseudo::Mv { rd, rs } => "mv\t"@ + rd.text() + ","@ + rs.text(),
            Pseudo::Fmv { data_size, rd, rs } => "fmv."@ + data_size.text() + "\t"@ + rd.text() + ","@
                + rs.text(),
            Pseudo::Neg { data_size, rd, rs } => "neg"@ + word_suffix(data_size) + "\t"@ + rd.text()
                + ","@ + rs.text(),
            Pseudo::SextW { rd, rs } => "sext.w\t"@ + rd.text() + ","@ + rs.text(),
            Pseudo::Seqz { rd, rs } => "seqz\t"@ + rd.text() + ","@ + rs.text(),
            Pseudo::Snez { rd, rs } => "snez\t"@ + rd.text() + ","@ + rs.text(),
            Pseudo::Fneg { data_size, rd, rs } => "fneg."@ + data_size.text() + "\t"@ + rd.text()
                + ","@ + rs.text(),
            Pseudo::J { offset } => "j\t"@ + offset.text(),
            Pseudo::Jr { rs } => "jr\t"@ + rs.text(),
            Pseudo::Jalr { rs } => "jalr\t"@ + rs.text(),
            Pseudo::Ret => "ret"@,
            Pseudo::Call { offset } => "call\t"@ + offset.text(),
        }
    }

    fn push_pair(out: &mut String, rd: &Register, rs: &Register)
        ensures
            final(out)@ == old(out)@ + rd.text() + ","@ + rs.text(),
    {
        rd.push_to(out);
        out.append(",");
        rs.push_to(out);
        assert(out@ =~= old(out)@ + rd.text() + ","@ + rs.text());
    }

    /// Appends the textual form to `out`.
    pub fn push_to(&self, out: &mut String)
        ensures
            final(out)@ == old(out)@ + self.text(),
    {
        match self {
            Pseudo::La { rd, symbol } => {
                out.append("la\t");
                rd.push_to(out);
                out.append(",");
                out.append(symbol.0.as_str());
            },
            Pseudo::Li { rd, imm } => {
                out.append("li\t");
                rd.push_to(out);
                out.append(",");
                push_signed_u64(out, *imm);
            },
            Pseudo::Mv { rd, rs } => {
                out.append("mv\t");
                Self::push_pair(out, rd, rs);
            },
            Pseudo::Fmv { data_size, rd, rs } => {
                out.append("fmv.");
                out.append(data_size.text_str());
                out.append("\t");
                Self::push_pair(out, rd, rs);
            },
            Pseudo::Neg { data_size, rd, rs } => {
                out.append("neg");
                out.append(word_suffix_str(*data_size));
                out.append("\t");
                Self::push_pair(out, rd, rs);
            },
            Pseudo::SextW { rd, rs } => {
                out.append("sext.w\t");
                Self::push_pair(out, rd, rs);
            },
            Pseudo::Seqz { rd, rs } => {
                out.append("seqz\t");
                Self::push_pair(out, rd, rs);
            },
            Pseudo::Snez { rd, rs } => {
                out.append("snez\t");
                Self::push_pair(out, rd, rs);
            },
            Pseudo::Fneg { data_size, rd, rs } => {
                out.append("fneg.");
                out.append(data_size.text_str());
                out.append("\t");
                Self::push_pair(out, rd, rs);
            },
            Pseudo::J { offset } => {
                out.append("j\t");
                out.append(offset.0.as_str());
            },
            Pseudo::Jr { rs } => {
                out.append("jr\t");
                rs.push_to(out);
            },
            Pseudo::Jalr { rs } => {
                out.append("jalr\t");
                rs.push_to(out);
            },
            Pseudo::Ret => {
                out.append("ret");
            },
            Pseudo::Call { offset } => {
                out.append("call\t");
                out.append(offset.0.as_str());
            },
        }
        assert(out@ =~= old(out)@ + self.text());
    }

    /// The textual form.
    pub fn to_string(&self) -> (r: String)
        ensures
            r@ == self.text(),
    {
        let mut s = String::new();
        self.push_to(&mut s);
        assert(s@ =~= self.text());
        s
    }
}

impl Instruction {
    /// The instruction can be printed: an R-type one has operands of the sizes its mnemonic
    /// needs.
    pub open spec fn renderable(self) -> bool {
        match self {
            Instruction::RType { instr, .. } => instr.renderable(),
            _ => true,
        }
    }

    /// The textual form: the mnemonic, a tab, and the operands in assembler order.
    pub open spec fn text(self) -> Seq<char> {
        match self {
            Instruction::RType { instr, rd, rs1, rs2 } => instr.text() + "\t"@ + rd.text() + ","@
                + rs1.text() + match rs2 {
                Some(r) => ","@ + r.text(),
                None => ""@,
            } + if instr is FcvtFloatToInt {
                ",rtz"@
            } else {
                ""@
            },
            Instruction::IType { instr, rd, rs1, imm } => if instr is Load {
                instr.text() + "\t"@ + rd.text() + ","@ + imm.text() + "("@ + rs1.text() + ")"@
            } else {
                instr.text() + "\t"@ + rd.text() + ","@ + rs1.text() + ","@ + imm.text()
            },
            Instruction::SType { instr, rs1, rs2, imm } => instr.text() + "\t"@ + rs2.text() + ","@
                + imm.text() + "("@ + rs1.text() + ")"@,
            Instruction::BType { instr, rs1, rs2, imm } => instr.text() + "\t"@ + rs1.text() + ","@
                + rs2.text() + ", "@ + imm.text(),
            Instruction::UType { instr, rd, imm } => instr.text() + "\t"@ + rd.text() + ", "@
                + imm.text(),
            Instruction::Pseudo(p) => p.text(),
        }
    }

    /// Appends the textual form to `out`.
    #[verifier::spinoff_prover]
    #[verifier::rlimit(40)]
    pub fn push_to(&self, out: &mut String)
        requires
            self.renderable(),
        ensures
            final(out)@ == old(out)@ + self.text(),
    {
        match self {
            Instruction::RType { instr, rd, rs1, rs2 } => {
                let m = instr.to_string();
                out.append(m.as_str());
                out.append("\t");
                rd.push_to(out);
                out.append(",");
                rs1.push_to(out);
                match rs2 {
                    Some(r) => {
                        out.append(",");
                        r.push_to(out);
                    },
                    None => {
                        out.append("");
                    },
                }
                let is_fcvt = match instr {
                    RType::FcvtFloatToInt { .. } => true,
                    _ => false,
                };
                if is_fcvt {
                    out.append(",rtz");
                } else {
                    out.append("");
                }
            },
            Instruction::IType { instr, rd, rs1, imm } => {
                let m = instr.to_string();
                out.append(m.as_str());
                out.append("\t");
                rd.push_to(out);
                out.append(",");
                let is_load = match instr {
                    IType::Load { .. } => true,
                    _ => false,
                };
                if is_load {
                    imm.push_to(out);
                    out.append("(");
                    rs1.push_to(out);
                    out.append(")");
                } else {
                    rs1.push_to(out);
                    out.append(",");
                    imm.push_to(out);
                }
            },
            Instruction::SType { instr, rs1, rs2, imm } => {
                let m = instr.to_string();
                out.append(m.as_str());
                out.append("\t");
                rs2.push_to(out);
                out.append(",");
                imm.push_to(out);
                out.append("(");
                rs1.push_to(out);
                out.append(")");
            },
            Instruction::BType { instr, rs1, rs2, imm } => {
                let m = instr.to_string();
                out.append(m.as_str());
                out.append("\t");
                rs1.push_to(out);
                out.append(",");
                rs2.push_to(out);
                out.append(", ");
                out.append(imm.0.as_str());
            },
            Instruction::UType { instr, rd, imm } => {
                let m = instr.to_string();
                out.append(m.as_str());
                out.append("\t");
                rd.push_to(out);
                out.append(", ");
                imm.push_to(out);
            },
            Instruction::Pseudo(p) => p.push_to(out),
        }
        assert(out@ =~= old(out)@ + self.text());
    }

    /// The textual form.
    pub fn to_string(&self) -> (r: String)
        requires
            self.renderable(),
        ensures
            r@ == self.text(),
    {
        let mut s = String::new();
        self.push_to(&mut s);
        assert(s@ =~= self.text());
        s
    }
}

/// Indentation levels of the lines inside a section, a variable or a block.
pub const INDENT: usize = 4;

/// The lines of a list of things, one after the other.
pub open spec fn seq_lines<T: WriteLine>(items: Seq<T>, indent: nat) -> Seq<char>
    decreases items.len(),
{
    if items.len() == 0 {
        Seq::empty()
    } else {
        seq_lines(items.drop_last(), indent) + items.last().lines(indent)
    }
}

/// Every one of a list of things can be written.
pub open spec fn all_writable<T: WriteLine>(items: Seq<T>) -> bool {
    forall|i: int| 0 <= i < items.len() ==> #[trigger] items[i].writable()
}

/// Directives, one per line, indented.
pub open spec fn directive_lines(ds: Seq<Directive>, indent: nat) -> Seq<char>
    decreases ds.len(),
{
    if ds.len() == 0 {
        Seq::empty()
    } else {
        directive_lines(ds.drop_last(), indent) + indent_text(indent) + ds.last().text() + "\n"@
    }
}

/// Instructions, one per line, indented.
pub open spec fn instruction_lines(is: Seq<Instruction>, indent: nat) -> Seq<char>
    decreases is.len(),
{
    if is.len() == 0 {
        Seq::empty()
    } else {
        instruction_lines(is.drop_last(), indent) + indent_text(indent) + is.last().text() + "\n"@
    }
}

fn write_items<T: WriteLine>(items: &Vec<T>, indent: usize, out: &mut String)
    requires
        all_writable(items@),
        indent + 8 <= usize::MAX,
    ensures
        final(out)@ == old(out)@ + seq_lines(items@, indent as nat),
{
    let mut i: usize = 0;
    while i < items.len()
        invariant
            i <= items@.len(),
            all_writable(items@),
            indent + 8 <= usize::MAX,
            out@ == old(out)@ + seq_lines(items@.subrange(0, i as int), indent as nat),
        decreases items@.len() - i,
    {
        assert(items@[i as int].writable());
        items[i].write_line(indent, out);
        proof {
            assert(items@.subrange(0, i + 1).drop_last() =~= items@.subrange(0, i as int));
        }
        i = i + 1;
        assert(out@ =~= old(out)@ + seq_lines(items@.subrange(0, i as int), indent as nat));
    }
    assert(items@.subrange(0, items@.len() as int) =~= items@);
}

fn write_directives(ds: &Vec<Directive>, indent: usize, out: &mut String)
    ensures
        final(out)@ == old(out)@ + directive_lines(ds@, indent as nat),
{
    let mut i: usize = 0;
    while i < ds.len()
        invariant
            i <= ds@.len(),
            out@ == old(out)@ + directive_lines(ds@.subrange(0, i as int), indent as nat),
        decreases ds@.len() - i,
    {
        write_indent(indent, out);
        let d = ds[i].to_string();
        out.append(d.as_str());
        out.append("\n");
        proof {
            assert(ds@.subrange(0, i + 1).drop_last() =~= ds@.subrange(0, i as int));
        }
        i = i + 1;
        assert(out@ =~= old(out)@ + directive_lines(ds@.subrange(0, i as int), indent as nat));
    }
    assert(ds@.subrange(0, ds@.len() as int) =~= ds@);
}

fn write_instructions(is: &Vec<Instruction>, indent: usize, out: &mut String)
    requires
        forall|k: int| 0 <= k < is@.len() ==> (#[trigger] is@[k]).renderable(),
    ensures
        final(out)@ == old(out)@ + instruction_lines(is@, indent as nat),
{
    let mut i: usize = 0;
    while i < is.len()
        invariant
            i <= is@.len(),
            forall|k: int| 0 <= k < is@.len() ==> (#[trigger] is@[k]).renderable(),
            out@ == old(out)@ + instruction_lines(is@.subrange(0, i as int), indent as nat),
        decreases is@.len() - i,
    {
        write_indent(indent, out);
        assert(is@[i as int].renderable());
        is[i].push_to(out);
        out.append("\n");
        proof {
            assert(is@.subrange(0, i + 1).drop_last() =~= is@.subrange(0, i as int));
        }
        i = i + 1;
        assert(out@ =~= old(out)@ + instruction_lines(is@.subrange(0, i as int), indent as nat));
    }
    assert(is@.subrange(0, is@.len() as int) =~= is@);
}

impl<T: WriteLine> WriteLine for Section<T> {
    open spec fn writable(&self) -> bool {
        self.body.writable()
    }

    /// The header's directives, indented one level deeper, then the body.
    open spec fn lines(&self, indent: nat) -> Seq<char> {
        directive_lines(self.header@, indent + 4) + self.body.lines(indent)
    }

    fn write_line(&self, indent: usize, out: &mut String) {
        write_directives(&self.header, indent + INDENT, out);
        self.body.write_line(indent, out);
    }
}

/// The line of a block's label, if it has one: the label and a colon.
pub open spec fn label_line(label: Option<Label>) -> Seq<char> {
    match label {
        Some(l) => l.text() + ":\n"@,
        None => Seq::empty(),
    }
}

impl WriteLine for Block {
    open spec fn writable(&self) -> bool {
        forall|k: int| 0 <= k < self.instructions@.len() ==> (#[trigger] self.instructions@[k]).renderable()
    }

    /// The label, if there is one, followed by a colon, then the instructions, indented.
    open spec fn lines(&self, indent: nat) -> Seq<char> {
        label_line(self.label) + instruction_lines(self.instructions@, indent + 4)
    }

    fn write_line(&self, indent: usize, out: &mut String) {
        let ghost start = out@;
        if let Some(label) = &self.label {
            out.append(label.0.as_str());
            out.append(":\n");
        }
        assert(out@ =~= start + label_line(self.label));
        write_instructions(&self.instructions, indent + INDENT, out);
        assert(out@ =~= start + self.lines(indent as nat));
    }
}

impl WriteLine for Function {
    open spec fn writable(&self) -> bool {
        all_writable(self.blocks@)
    }

    /// The blocks, one after the other.
    open spec fn lines(&self, indent: nat) -> Seq<char> {
        seq_lines(self.blocks@, indent)
    }

    fn write_line(&self, indent: usize, out: &mut String) {
        write_items(&self.blocks, indent, out);
    }
}

impl WriteLine for Variable {
    open spec fn writable(&self) -> bool {
        true
    }

    /// The label followed by a colon, then the directives, indented.
    open spec fn lines(&self, indent: nat) -> Seq<char> {
        self.label.text() + ":\n"@ + directive_lines(self.directives@, indent + 4)
    }

    fn write_line(&self, indent: usize, out: &mut String) {
        out.append(self.label.0.as_str());
        out.append(":\n");
        write_directives(&self.directives, indent + INDENT, out);
        assert(out@ =~= old(out)@ + self.lines(indent as nat));
    }
}

impl WriteLine for TranslationUnit {
    open spec fn writable(&self) -> bool {
        all_writable(self.functions@)
    }

    /// The functions, then the variables.
    open spec fn lines(&self, indent: nat) -> Seq<char> {
        seq_lines(self.functions@, indent) + seq_lines(self.variables@, indent)
    }

    fn write_line(&self, indent: usize, out: &mut String) {
        write_items(&self.functions, indent, out);
        write_items(&self.variables, indent, out);
        assert(out@ =~= old(out)@ + self.lines(indent as nat));
    }
}

impl WriteLine for Asm {
    open spec fn writable(&self) -> bool {
        self.unit.writable()
    }

    /// The lines of the program's translation unit.
    open spec fn lines(&self, indent: nat) -> Seq<char> {
        self.unit.lines(indent)
    }

    fn write_line(&self, indent: usize, out: &mut String) {
        self.unit.write_line(indent, out);
    }
}

/// Distinct R-type instructions print distinct mnemonics: where the sizes are ones a mnemonic
/// tells apart, two instructions with the same mnemonic are the same instruction (so an
/// arithmetic shift is never printed as a logical one, nor a signed division as an unsigned
/// one).
#[verifier::rlimit(100)]
#[verifier::spinoff_prover]
pub proof fn lemma_rtype_text_injective(a: RType, b: RType)
    requires
        a.sizes_distinguished(),
        b.sizes_distinguished(),
        a.text() == b.text(),
    ensures
        a == b,
{
    reveal_strlit("add");
    reveal_strlit("sub");
    reveal_strlit("sll");
    reveal_strlit("srl");
    reveal_strlit("sra");
    reveal_strlit("mul");
    reveal_strlit("div");
    reveal_strlit("rem");
    reveal_strlit("slt");
    reveal_strlit("xor");
    reveal_strlit("or");
    reveal_strlit("and");
    reveal_strlit("fadd.");
    reveal_strlit("fsub.");
    reveal_strlit("fmul.");
    reveal_strlit("fdiv.");
    reveal_strlit("feq.");
    reveal_strlit("flt.");
    reveal_strlit("fmv.x.");
    reveal_strlit("fmv.");
    reveal_strlit(".x");
    reveal_strlit("fcvt.");
    reveal_strlit(".");
    reveal_strlit("w");
    reveal_strlit("u");
    reveal_strlit("");
    reveal_strlit("d");
    reveal_strlit("s");
    reveal_strlit("l");
    reveal_strlit("b");
    reveal_strlit("h");
    let t = a.text();
    let u = b.text();
    assert(t.len() == u.len());
    assert(t[0] == u[0] && t[1] == u[1] && t[2] == u[2]);
    if t.len() > 3 {
        assert(t[3] == u[3]);
    }
    if t.len() > 4 {
        assert(t[4] == u[4]);
    }
    if t.len() > 5 {
        assert(t[5] == u[5]);
    }
    if t.len() > 6 {
        assert(t[6] == u[6]);
    }
    if t.len() > 7 {
        assert(t[7] == u[7]);
    }
    if t.len() > 8 {
        assert(t[8] == u[8]);
    }
    match a {
        RType::Add(_) => {},
        RType::Sub(_) => {},
        RType::Sll(_) => {},
        RType::Srl(_) => {},
        RType::Sra(_) => {},
        RType::Mul(_) => {},
        RType::Div { .. } => {},
        RType::Rem { .. } => {},
        RType::Slt { .. } => {},
        RType::Xor => {},
        RType::Or => {},
        RType::And => {},
        RType::Fadd(_) => {},
        RType::Fsub(_) => {},
        RType::Fmul(_) => {},
        RType::Fdiv(_) => {},
        RType::Feq(_) => {},
        RType::Flt(_) => {},
        RType::FmvFloatToInt { .. } => {},
        RType::FmvIntToFloat { .. } => {},
        RType::FcvtFloatToInt { .. } => {},
        RType::FcvtIntToFloat { .. } => {},
        RType::FcvtFloatToFloat { .. } => {},
    }
}

/// Distinct I-type instructions print distinct mnemonics, where the sizes of additions and
/// shifts are a word or a double: two instructions with the same mnemonic are the same, except
/// that a float load has no signedness to print.
#[verifier::rlimit(100)]
#[verifier::spinoff_prover]
pub proof fn lemma_itype_text_injective(a: IType, b: IType)
    requires
        a.sizes_distinguished(),
        b.sizes_distinguished(),
        a.text() == b.text(),
    ensures
        a == b || (a matches IType::Load { data_size: d1, .. } && b matches IType::Load { data_size: d2, .. }
            && d1 == d2 && (d1 is SinglePrecision || d1 is DoublePrecision)),
{
    reveal_strlit("l");
    reveal_strlit("fl");
    reveal_strlit("addi");
    reveal_strlit("xori");
    reveal_strlit("ori");
    reveal_strlit("andi");
    reveal_strlit("slli");
    reveal_strlit("srli");
    reveal_strlit("srai");
    reveal_strlit("slti");
    reveal_strlit("w");
    reveal_strlit("u");
    reveal_strlit("");
    reveal_strlit("d");
    reveal_strlit("b");
    reveal_strlit("h");
    reveal_strlit("s");
    let t = a.text();
    let u = b.text();
    assert(t.len() == u.len());
    assert(t[0] == u[0] && t[1] == u[1]);
    if t.len() > 2 {
        assert(t[2] == u[2]);
    }
    if t.len() > 3 {
        assert(t[3] == u[3]);
    }
    if t.len() > 4 {
        assert(t[4] == u[4]);
    }
    match a {
        IType::Load { .. } => {},
        IType::Addi(_) => {},
        IType::Xori => {},
        IType::Ori => {},
        IType::Andi => {},
        IType::Slli(_) => {},
        IType::Srli(_) => {},
        IType::Srai(_) => {},
        IType::Slti { .. } => {},
    }
}

/// Stores of distinct sizes print distinct mnemonics.
pub proof fn lemma_stype_text_injective(a: SType, b: SType)
    requires
        a.text() == b.text(),
    ensures
        a == b,
{
    reveal_strlit("s");
    reveal_strlit("fs");
    reveal_strlit("w");
    reveal_strlit("d");
    reveal_strlit("b");
    reveal_strlit("h");
    let t = a.text();
    let u = b.text();
    assert(t.len() == u.len());
    assert(t[0] == u[0] && t[1] == u[1]);
    if t.len() > 2 {
        assert(t[2] == u[2]);
    }
}

/// Distinct branches print distinct mnemonics (so a signed comparison is never printed as an
/// unsigned one).
pub proof fn lemma_btype_text_injective(a: BType, b: BType)
    requires
        a.text() == b.text(),
    ensures
        a == b,
{
    reveal_strlit("beq");
    reveal_strlit("bne");
    reveal_strlit("blt");
    reveal_strlit("bge");
    reveal_strlit("u");
    reveal_strlit("");
    let t = a.text();
    let u = b.text();
    assert(t.len() == u.len());
    assert(t[0] == u[0] && t[1] == u[1] && t[2] == u[2]);
}

} // verus!
