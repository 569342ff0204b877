//! The intermediate representation.
use vstd::prelude::*;

pub mod code;
pub mod equiv;
pub mod dtype;
pub mod dtype_ast;
pub mod driver;
pub mod interp;
pub mod machine;
pub mod memory;
pub mod offsets;
pub mod parse;
pub mod program;
pub mod visualize;
pub mod write_ir;

pub use code::{Block, BlockExit, Constant, Instruction, JumpArg, Operand};
pub use dtype::{Dtype, DtypeError, HasDtype, SpecDtype};
pub use interp::{BinaryOperator, UnaryOperator, Value};
pub use program::{Declaration, FunctionDefinition, TranslationUnit};
use dtype::{dtypes_view, name_view};
use crate::utils::{decimal, push_decimal};
use vstd::arithmetic::power2::{pow2, lemma_pow2_unfold, lemma_pow2_pos, lemma_pow2_strictly_increases};

verus! {

/// The identifier of a basic block.
#[derive(Debug, Clone, Copy, PartialEq, Eq, Structural, Hash)]
pub struct BlockId(pub usize);

impl BlockId {
    /// The textual form `b<id>`.
    pub open spec fn text(self) -> Seq<char> {
        seq!['b'] + decimal(self.0 as nat)
    }

    /// The textual form `b<id>`.
    pub fn to_string(&self) -> (r: String)
        ensures
            r@ == self.text(),
    {
        let mut s = String::from_str("b");
        proof {
            reveal_strlit("b");
        }
        push_decimal(&mut s, self.0 as u128);
        s
    }
}

/// The signature of a function: its return type and parameter types.
#[derive(Debug)]
pub struct FunctionSignature {
    pub ret: Dtype,
    pub params: Vec<Dtype>,
}

impl FunctionSignature {
    /// The signature of the function type `dtype`.
    pub fn new(dtype: Dtype) -> (r: Self)
        requires
            dtype@ is Function,
        ensures
            dtype@ matches SpecDtype::Function { ret, params } && r.ret@ == *ret && dtypes_view(
                r.params@,
            ) == params,
    {
        let (ret, params) = dtype.get_function_inner().unwrap();
        Self { ret: ret.duplicate(), params: Dtype::duplicate_list(params) }
    }
}

impl HasDtype for FunctionSignature {
    /// The function type with this signature.
    fn dtype(&self) -> (r: Dtype)
        ensures
            r@ == (SpecDtype::Function { ret: Box::new(self.ret@), params: dtypes_view(self.params@) }),
    {
        Dtype::function(self.ret.duplicate(), Dtype::duplicate_list(&self.params))
    }
}

/// A register of the intermediate representation.
#[derive(Debug, Clone, Copy, Hash)]
pub enum RegisterId {
    /// Holds the pointer to local allocation `aid`.
    Local { aid: usize },
    /// Holds argument `aid` of block `bid`: a function argument in the initial block, a phi
    /// value elsewhere.
    Arg { bid: BlockId, aid: usize },
    /// Holds the result of instruction `iid` of block `bid`.
    Temp { bid: BlockId, iid: usize },
}

impl RegisterId {
    /// The register of local allocation `aid`.
    pub fn local(aid: usize) -> (r: Self)
        ensures
            r == (RegisterId::Local { aid }),
    {
        Self::Local { aid }
    }

    /// The register of argument `aid` of block `bid`.
    pub fn arg(bid: BlockId, aid: usize) -> (r: Self)
        ensures
            r == (RegisterId::Arg { bid, aid }),
    {
        Self::Arg { bid, aid }
    }

    /// The register of the result of instruction `iid` of block `bid`.
    pub fn temp(bid: BlockId, iid: usize) -> (r: Self)
        ensures
            r == (RegisterId::Temp { bid, iid }),
    {
        Self::Temp { bid, iid }
    }

    /// Whether the register keeps one value through a call of a function whose initial block is
    /// `bid_init`: local allocations and the function's arguments do.
    pub fn is_const(&self, bid_init: BlockId) -> (r: bool)
        ensures
            r == match *self {
                RegisterId::Local { .. } => true,
                RegisterId::Arg { bid, .. } => bid == bid_init,
                RegisterId::Temp { .. } => false,
            },
    {
        match self {
            Self::Local { .. } => true,
            Self::Arg { bid, .. } => bid.0 == bid_init.0,
            _ => false,
        }
    }

    /// The textual form: `%l<aid>`, `%b<bid>:p<aid>` or `%b<bid>:i<iid>`.
    pub open spec fn text(self) -> Seq<char> {
        match self {
            RegisterId::Local { aid } => seq!['%', 'l'] + decimal(aid as nat),
            RegisterId::Arg { bid, aid } => seq!['%', 'b'] + decimal(bid.0 as nat) + seq![':', 'p']
                + decimal(aid as nat),
            RegisterId::Temp { bid, iid } => seq!['%', 'b'] + decimal(bid.0 as nat) + seq![':', 'i']
                + decimal(iid as nat),
        }
    }

    /// The textual form: `%l<aid>`, `%b<bid>:p<aid>` or `%b<bid>:i<iid>`.
    pub fn to_string(&self) -> (r: String)
        ensures
            r@ == self.text(),
    {
        proof {
            reveal_strlit("%l");
            reveal_strlit("%b");
            reveal_strlit(":p");
            reveal_strlit(":i");
        }
        match self {
            Self::Local { aid } => {
                let mut s = String::from_str("%l");
                push_decimal(&mut s, *aid as u128);
                s
            },
            Self::Arg { bid, aid } => {
                let mut s = String::from_str("%b");
                push_decimal(&mut s, bid.0 as u128);
                s.append(":p");
                push_decimal(&mut s, *aid as u128);
                s
            },
            Self::Temp { bid, iid } => {
                let mut s = String::from_str("%b");
                push_decimal(&mut s, bid.0 as u128);
                s.append(":i");
                push_decimal(&mut s, *iid as u128);
                s
            },
        }
    }
}

impl PartialEq for RegisterId {
    fn eq(&self, other: &RegisterId) -> (r: bool) {
        match (self, other) {
            (Self::Local { aid }, Self::Local { aid: other_aid }) => *aid == *other_aid,
            (Self::Arg { bid, aid }, Self::Arg { bid: other_bid, aid: other_aid }) => bid.0
                == other_bid.0 && *aid == *other_aid,
            (Self::Temp { bid, iid }, Self::Temp { bid: other_bid, iid: other_iid }) => bid.0
                == other_bid.0 && *iid == *other_iid,
            _ => false,
        }
    }
}

impl vstd::std_specs::cmp::PartialEqSpecImpl for RegisterId {
    open spec fn obeys_eq_spec() -> bool {
        true
    }

    open spec fn eq_spec(&self, other: &RegisterId) -> bool {
        *self == *other
    }
}

impl Eq for RegisterId {}

/// A value that may carry a name.
#[derive(Debug)]
pub struct Named<T> {
    pub name: Option<String>,
    pub inner: T,
}

impl<T> Named<T> {
    /// Pairs `inner` with an optional name.
    pub fn new(name: Option<String>, inner: T) -> (r: Self)
        ensures
            r.name_v() == name_view(name),
            r.inner == inner,
    {
        Self { name, inner }
    }

    /// The name, if there is one.
    pub fn name(&self) -> (r: Option<&String>)
        ensures
            r is Some == self.name is Some,
            r matches Some(n) ==> Some(n@) == self.name_v(),
    {
        self.name.as_ref()
    }
}


/// `1 << w` is 2 to the power `w`.
pub proof fn lemma_shl_one_is_pow2(w: u128)
    requires
        w < 128,
    ensures
        (1u128 << w) as nat == pow2(w as nat),
    decreases w,
{
    if w == 0 {
        assert(1u128 << 0u128 == 1u128) by (bit_vector);
        vstd::arithmetic::power2::lemma2_to64();
    } else {
        lemma_shl_one_is_pow2((w - 1) as u128);
        let v = (w - 1) as u128;
        assert(1u128 << w == 2 * (1u128 << v)) by (bit_vector)
            requires
                v + 1 == w,
                w < 128,
        ;
        lemma_pow2_unfold(w as nat);
    }
}

/// The value of a 128-bit pattern read as a two's complement signed number.
pub open spec fn signed_value(v: u128) -> int {
    if v < pow2(127) {
        v as int
    } else {
        v - pow2(128)
    }
}

/// The mask of the low `w` bits of a 128-bit pattern.
pub open spec fn low_mask(w: u128) -> u128 {
    ((1u128 << w) - 1) as u128
}

/// Keeping the low `w` bits of `x` is taking `x` modulo `2^w`.
pub proof fn lemma_low_mask_is_mod(x: u128, w: u128)
    requires
        w < 128,
    ensures
        (x & low_mask(w)) as nat == x as nat % pow2(w as nat),
    decreases w,
{
    if w == 0 {
        assert(x & (((1u128 << 0u128) - 1) as u128) == 0) by (bit_vector);
        vstd::arithmetic::power2::lemma2_to64();
    } else {
        let v = (w - 1) as u128;
        let y = x >> 1;
        lemma_low_mask_is_mod(y, v);
        assert(x & (((1u128 << w) - 1) as u128) == 2 * (y & (((1u128 << v) - 1) as u128)) + (x
            & 1)) by (bit_vector)
            requires
                v + 1 == w,
                w < 128,
                y == x >> 1,
        ;
        assert(y == x / 2 && x & 1 == x % 2) by (bit_vector)
            requires
                y == x >> 1,
        ;
        lemma_pow2_pos(v as nat);
        lemma_pow2_unfold(w as nat);
        vstd::arithmetic::div_mod::lemma_breakdown(x as int, 2, pow2(v as nat) as int);
    }
}

/// `value` with all but its low `width` bits cleared: `value` modulo `2^width`.
pub open spec fn trimmed(value: nat, width: nat) -> nat {
    value % pow2(width)
}

/// `value` with its bit `width - 1` copied into every bit above it: unchanged when that bit is
/// clear, else `2^128 - 2^width + value % 2^width`.
pub open spec fn sign_extended(value: u128, width: nat) -> nat {
    if value < pow2((width - 1) as nat) {
        value as nat
    } else {
        (pow2(128) - pow2(width) + value as nat % pow2(width)) as nat
    }
}

/// Keeps the low `width` bits of `value` and clears the others: `value` modulo `2^width`.
pub fn trim_unnecessary_bits(value: u128, width: u128) -> (r: u128)
    requires
        width < 128,
    ensures
        r as nat == trimmed(value as nat, width as nat),
{
    proof {
        lemma_shl_one_is_pow2(width);
        lemma_pow2_pos(width as nat);
        lemma_low_mask_is_mod(value, width);
    }
    let bit_mask: u128 = (1u128 << width) - 1;
    value & bit_mask
}

/// Extends the sign bit (bit `width - 1`) of `value` over all the bits above it.
///
/// When that bit is clear `value` is returned as it is; when it is set, every bit from `width`
/// up is set and the low `width` bits are kept: `2^128 - 2^width + value % 2^width`. For a
/// `value` below `2^width` the result read as a signed number is then `value - 2^width`.
pub fn sign_extension(value: u128, width: u128) -> (r: u128)
    requires
        1 <= width < 128,
    ensures
        r as nat == sign_extended(value, width as nat),
        value < pow2(width as nat) ==> signed_value(r) == if value >= pow2((width - 1) as nat) {
            value - pow2(width as nat)
        } else {
            value as int
        },
{
    let base: u128 = 1u128 << (width - 1);
    proof {
        lemma_shl_one_is_pow2((width - 1) as u128);
        lemma_shl_one_is_pow2(width);
        lemma_pow2_unfold(width as nat);
        if width < 127 {
            lemma_pow2_strictly_increases((width - 1) as nat, 126);
            lemma_pow2_strictly_increases(width as nat, 127);
        }
        lemma_pow2_unfold(127);
        lemma_pow2_unfold(128);
        lemma_pow2_pos(width as nat);
    }
    if value >= base {
        let bit_mask: u128 = u128::MAX << width;
        proof {
            assert(value | (u128::MAX << width) == (u128::MAX << width) + (value & (((1u128 << width)
                - 1) as u128))) by (bit_vector)
                requires
                    width < 128,
            ;
            lemma_low_mask_is_mod(value, width);
            if value < pow2(width as nat) {
                vstd::arithmetic::div_mod::lemma_small_mod(value as nat, pow2(width as nat));
            }
            assert((u128::MAX << width) as int == 0x1_0000_0000_0000_0000_0000_0000_0000_0000int
                - (1u128 << width)) by (bit_vector)
                requires
                    width < 128,
            ;
            assert(pow2(128) == 0x1_0000_0000_0000_0000_0000_0000_0000_0000int) by {
                vstd::arithmetic::power2::lemma2_to64();
                vstd::arithmetic::power2::lemma2_to64_rest();
                vstd::arithmetic::power2::lemma_pow2_adds(64, 64);
            }
        }
        value | bit_mask
    } else {
        value
    }
}

proof fn lemma_pow2_facts(width: nat)
    requires
        1 <= width < 128,
    ensures
        0 < pow2((width - 1) as nat) < pow2(width) < pow2(128),
        pow2(width) == 2 * pow2((width - 1) as nat),
        pow2(128) % pow2(width) == 0,
        pow2(128) == 2 * pow2(127),
        pow2((width - 1) as nat) <= pow2(126),
        pow2(128) == 0x1_0000_0000_0000_0000_0000_0000_0000_0000int,
{
    vstd::arithmetic::power2::lemma2_to64();
    vstd::arithmetic::power2::lemma2_to64_rest();
    vstd::arithmetic::power2::lemma_pow2_adds(64, 64);
    lemma_pow2_pos((width - 1) as nat);
    lemma_pow2_unfold(width);
    lemma_pow2_unfold(127);
    lemma_pow2_unfold(128);
    lemma_pow2_strictly_increases(width, 128);
    if width < 127 {
        lemma_pow2_strictly_increases((width - 1) as nat, 126);
    }
    vstd::arithmetic::power2::lemma_pow2_adds((128 - width) as nat, width);
    vstd::arithmetic::div_mod::lemma_mod_multiples_basic(pow2((128 - width) as nat) as int, pow2(width) as int);
}

/// Clearing the high bits twice clears no more than once.
pub proof fn lemma_trim_idempotent(value: nat, width: nat)
    ensures
        trimmed(trimmed(value, width), width) == trimmed(value, width),
{
    lemma_pow2_pos(width);
    vstd::arithmetic::div_mod::lemma_mod_twice(value as int, pow2(width) as int);
}

/// Sign extension keeps the low `width` bits: trimming after it is trimming alone.
pub proof fn lemma_trim_of_sign_extended(value: u128, width: nat)
    requires
        1 <= width < 128,
    ensures
        trimmed(sign_extended(value, width), width) == trimmed(value as nat, width),
{
    lemma_pow2_facts(width);
    if value >= pow2((width - 1) as nat) {
        let p = pow2(width) as int;
        let v = value as int;
        let k = pow2(128) as int / p;
        vstd::arithmetic::div_mod::lemma_fundamental_div_mod(pow2(128) as int, p);
        assert(pow2(128) - p + v % p == (k - 1) * p + v % p) by (nonlinear_arith)
            requires
                pow2(128) == p * k,
        ;
        vstd::arithmetic::div_mod::lemma_mod_multiples_vanish(k - 1, v % p, p);
        vstd::arithmetic::div_mod::lemma_mod_twice(value as int, p);
    }
}

/// Sign-extending a value that is already sign-extended changes nothing.
pub proof fn lemma_sign_extension_idempotent(value: u128, width: nat)
    requires
        1 <= width < 128,
    ensures
        sign_extended(sign_extended(value, width) as u128, width) == sign_extended(value, width),
{
    lemma_pow2_facts(width);
    let p = pow2(width) as int;
    if value >= pow2((width - 1) as nat) {
        let r = sign_extended(value, width);
        vstd::arithmetic::div_mod::lemma_mod_bound(value as int, p);
        assert(pow2(128) - p <= r < pow2(128));
        assert(r as u128 == r);
        lemma_trim_of_sign_extended(value, width);
    }
}

/// A sign-extended value of `width` bits, read as a signed number, lies in
/// `[-2^(width-1), 2^(width-1))`.
pub proof fn lemma_sign_extended_range(value: u128, width: nat)
    requires
        1 <= width < 128,
        value < pow2(width),
    ensures
        -pow2((width - 1) as nat) <= signed_value(sign_extended(value, width) as u128) < pow2(
            (width - 1) as nat,
        ),
{
    lemma_pow2_facts(width);
    if value >= pow2((width - 1) as nat) {
        vstd::arithmetic::div_mod::lemma_small_mod(value as nat, pow2(width));
        assert(sign_extended(value, width) as u128 == sign_extended(value, width));
    }
}

} // verus!
