use lib::assembly::write_asm::INDENT;
use lib::assembly::{
    BType, Block, DataSize, Directive, Function, IType, Immediate, Instruction, Label, Pseudo, RType,
    Register, RegisterType, RelocationFunction, SType, Section, SectionType, SymbolType, UType, Variable,
};
use lib::ir::BlockId;
use lib::write_base::{write_indent, WriteLine};

fn a(i: usize) -> Register {
    Register::arg(RegisterType::Integer, i)
}

#[test]
fn register_names() {
    assert_eq!(Register::Zero.to_string(), "zero");
    assert_eq!(Register::Sp.to_string(), "sp");
    assert_eq!(a(0).to_string(), "a0");
    assert_eq!(Register::temp(RegisterType::FloatingPoint, 11).to_string(), "ft11");
    assert_eq!(Register::saved(RegisterType::Integer, 10).to_string(), "s10");
}

#[test]
fn label_of_a_block() {
    let l = Label::new("main", BlockId(3));
    assert_eq!(l.0, ".main_L3");
    assert_eq!(l.to_string(), ".main_L3");
    assert_eq!(Label::new("f", BlockId(120)).0, ".f_L120");
}

#[test]
fn r_type_mnemonics() {
    assert_eq!(RType::Add(DataSize::Word).to_string(), "addw");
    assert_eq!(RType::Add(DataSize::Double).to_string(), "add");
    assert_eq!(RType::Div { data_size: DataSize::Double, is_signed: false }.to_string(), "divu");
    assert_eq!(RType::Rem { data_size: DataSize::Word, is_signed: true }.to_string(), "remw");
    assert_eq!(RType::Slt { is_signed: false }.to_string(), "sltu");
    assert_eq!(RType::Fadd(DataSize::SinglePrecision).to_string(), "fadd.s");
    assert_eq!(RType::FmvFloatToInt { float_data_size: DataSize::DoublePrecision }.to_string(), "fmv.x.d");
    assert_eq!(RType::FmvIntToFloat { float_data_size: DataSize::SinglePrecision }.to_string(), "fmv.w.x");
    assert_eq!(
        RType::FcvtFloatToInt {
            float_data_size: DataSize::SinglePrecision,
            int_data_size: DataSize::Word,
            is_signed: false
        }
        .to_string(),
        "fcvt.wu.s"
    );
    assert_eq!(
        RType::FcvtIntToFloat {
            int_data_size: DataSize::Double,
            float_data_size: DataSize::DoublePrecision,
            is_signed: true
        }
        .to_string(),
        "fcvt.d.l"
    );
    assert_eq!(
        RType::FcvtFloatToFloat { from: DataSize::SinglePrecision, to: DataSize::DoublePrecision }
            .to_string(),
        "fcvt.d.s"
    );
}

#[test]
fn other_mnemonics() {
    assert_eq!(IType::Load { data_size: DataSize::Word, is_signed: true }.to_string(), "lw");
    assert_eq!(IType::Load { data_size: DataSize::Byte, is_signed: false }.to_string(), "lbu");
    assert_eq!(IType::Load { data_size: DataSize::DoublePrecision, is_signed: true }.to_string(), "fld");
    assert_eq!(IType::Addi(DataSize::Word).to_string(), "addiw");
    assert_eq!(IType::Slti { is_signed: false }.to_string(), "sltiu");
    assert_eq!(SType::Store(DataSize::Half).to_string(), "sh");
    assert_eq!(SType::Store(DataSize::SinglePrecision).to_string(), "fsw");
    assert_eq!(BType::Bge { is_signed: false }.to_string(), "bgeu");
    assert_eq!(UType::Lui.to_string(), "lui");
}

#[test]
fn instructions_in_assembler_syntax() {
    let add = Instruction::RType { instr: RType::Add(DataSize::Double), rd: a(0), rs1: a(1), rs2: Some(a(2)) };
    assert_eq!(add.to_string(), "add\ta0,a1,a2");
    let fcvt = Instruction::RType {
        instr: RType::FcvtFloatToInt {
            float_data_size: DataSize::DoublePrecision,
            int_data_size: DataSize::Double,
            is_signed: true,
        },
        rd: a(0),
        rs1: Register::arg(RegisterType::FloatingPoint, 0),
        rs2: None,
    };
    assert_eq!(fcvt.to_string(), "fcvt.l.d\ta0,fa0,rtz");
    let load = Instruction::IType {
        instr: IType::Load { data_size: DataSize::Double, is_signed: true },
        rd: a(0),
        rs1: Register::Sp,
        imm: Immediate::Value(16),
    };
    assert_eq!(load.to_string(), "ld\ta0,16(sp)");
    let addi = Instruction::IType {
        instr: IType::Addi(DataSize::Double),
        rd: Register::Sp,
        rs1: Register::Sp,
        imm: Immediate::Value((-16i64) as u64),
    };
    assert_eq!(addi.to_string(), "addi\tsp,sp,-16");
    let store = Instruction::SType {
        instr: SType::Store(DataSize::Word),
        rs1: Register::Sp,
        rs2: a(1),
        imm: Immediate::Value(4),
    };
    assert_eq!(store.to_string(), "sw\ta1,4(sp)");
    let branch = Instruction::BType {
        instr: BType::Beq,
        rs1: a(0),
        rs2: Register::Zero,
        imm: Label(".main_L1".to_string()),
    };
    assert_eq!(branch.to_string(), "beq\ta0,zero, .main_L1");
    let lui = Instruction::UType {
        instr: UType::Lui,
        rd: a(0),
        imm: Immediate::relocation(RelocationFunction::Hi20, Label("x".to_string())),
    };
    assert_eq!(lui.to_string(), "lui\ta0, %hi(x)");
    assert_eq!(Instruction::Pseudo(Pseudo::Ret).to_string(), "ret");
    assert_eq!(Instruction::Pseudo(Pseudo::Li { rd: a(0), imm: u64::MAX }).to_string(), "li\ta0,-1");
    assert_eq!(
        Instruction::Pseudo(Pseudo::Neg { data_size: DataSize::Word, rd: a(0), rs: a(1) }).to_string(),
        "negw\ta0,a1"
    );
    assert_eq!(Instruction::Pseudo(Pseudo::Call { offset: Label("f".to_string()) }).to_string(), "call\tf");
}

#[test]
fn directives() {
    assert_eq!(Directive::Align(2).to_string(), ".align\t2");
    assert_eq!(Directive::Globl(Label("main".to_string())).to_string(), ".globl\tmain");
    assert_eq!(Directive::Section(SectionType::Rodata).to_string(), ".section\t.rodata");
    assert_eq!(
        Directive::Type(Label("main".to_string()), SymbolType::Function).to_string(),
        ".type\tmain, @function"
    );
    assert_eq!(Directive::Word(0x10).to_string(), ".word\t0x10");
    assert_eq!(Directive::Byte(0).to_string(), ".byte\t0x0");
    assert_eq!(Directive::Quad(0xdead_beef).to_string(), ".quad\t0xdeadbeef");
    assert_eq!(Directive::Zero(255).to_string(), ".zero\t0xff");
    assert_eq!(Directive::try_from_data_size(DataSize::Byte, 0x1ff).to_string(), ".byte\t0xff");
}

#[test]
fn indentation() {
    let mut s = String::new();
    write_indent(3, &mut s);
    assert_eq!(s, "      ");
    assert_eq!(INDENT, 4);
}

#[test]
fn variable_and_function_lines() {
    let v = Variable::new(Label("g".to_string()), vec![Directive::Word(1)]);
    let mut s = String::new();
    v.write_line(0, &mut s);
    assert_eq!(s, "g:\n        .word\t0x1\n");

    let block = Block::new(
        Some(Label("main".to_string())),
        vec![Instruction::Pseudo(Pseudo::Li { rd: a(0), imm: 0 }), Instruction::Pseudo(Pseudo::Ret)],
    );
    let section = Section::new(
        vec![Directive::Globl(Label("main".to_string()))],
        Function::new(vec![block]),
    );
    let mut s = String::new();
    section.write_line(0, &mut s);
    assert_eq!(s, "        .globl\tmain\nmain:\n        li\ta0,0\n        ret\n");
}
