//! Reading the text of the intermediate representation back into a program.
//!
//! Each rule of the grammar is a spec function from a position in the characters of the text to
//! what it reads there and the position after it, or `None` where the rule does not match; the
//! function that reads the rule is proved to follow it. Alternatives are tried in order, and a
//! list stops before a separator that no item follows. Reading only moves forward: the spec
//! functions say so where they continue after a part (`i < j <= cs.len()`), and the reading
//! functions prove it of every part they read.
use vstd::prelude::*;

use super::code::operand_dtype;
use super::dtype::{dtypes_view, field_view, fields_view, spec_set_const};
use super::{
    BinaryOperator, Block, BlockExit, BlockId, Constant, Declaration, Dtype, FunctionDefinition,
    FunctionSignature, HasDtype, Instruction, JumpArg, Named, Operand, RegisterId, SpecDtype,
    TranslationUnit, UnaryOperator,
};
use crate::c::ast::{Expression, Initializer, Integer, IntegerBase, IntegerSize};
use super::dtype::dtype_text;
use crate::utils::{decimal, digit_char, StringMap};

verus! {

/// Why a text could not be read as a program: the position, in characters, where reading
/// stopped, and what was expected there.
#[derive(Debug)]
pub struct IrParseError {
    pub position: usize,
    pub expected: String,
}

/// The character at `i`, if there is one.
fn at(cs: &Vec<char>, i: usize) -> (r: Option<char>)
    ensures
        r == if i < cs@.len() {
            Some(cs@[i as int])
        } else {
            None::<char>
        },
{
    if i < cs.len() {
        Some(cs[i])
    } else {
        None
    }
}

/// Whether the character at `i` is `c`.
fn is_char(cs: &Vec<char>, i: usize, c: char) -> (r: bool)
    ensures
        r == (i < cs@.len() && cs@[i as int] == c),
        r ==> i < usize::MAX,
{
    i < cs.len() && cs[i] == c
}

/// Whether the character at `i` is `c`.
pub open spec fn spec_is(cs: Seq<char>, i: int, c: char) -> bool {
    0 <= i < cs.len() && cs[i] == c
}

/// The characters `s`, not empty, at `i`: the position after them.
pub open spec fn spec_lit(cs: Seq<char>, i: int, s: Seq<char>) -> Option<int> {
    if s.len() > 0 && 0 <= i && i + s.len() <= cs.len() && cs.subrange(i, i + s.len()) == s {
        Some(i + s.len())
    } else {
        None
    }
}

/// The characters of `s` at `i`: the position after them. An empty `s` does not match.
#[verifier::loop_isolation(false)]
fn lit(cs: &Vec<char>, i: usize, s: &str) -> (r: Option<usize>)
    requires
        i <= cs@.len(),
    ensures
        match r {
            Some(j) => spec_lit(cs@, i as int, s@) == Some(j as int),
            None => spec_lit(cs@, i as int, s@) is None,
        },
        r matches Some(j) ==> i < j <= cs@.len(),
{
    let n = s.unicode_len();
    if n == 0 || n > cs.len() - i {
        return None;
    }
    let mut k: usize = 0;
    while k < n
        invariant
            n == s@.len(),
            i + n <= cs@.len(),
            k <= n,
            forall|m: int| 0 <= m < k ==> cs@[i + m] == s@[m],
        decreases n - k,
    {
        if cs[i + k] != s.get_char(k) {
            assert(cs@.subrange(i as int, i + n)[k as int] != s@[k as int]);
            return None;
        }
        k = k + 1;
    }
    assert(cs@.subrange(i as int, i + n) =~= s@);
    Some(i + n)
}

/// Whether `c` is white space: a space, a line break or a tab.
pub open spec fn is_space(c: char) -> bool {
    c == ' ' || c == '\n' || c == '\t'
}

/// The number of white space characters from `i` on.
pub open spec fn ws_run(cs: Seq<char>, i: int) -> nat
    decreases cs.len() - i,
{
    if 0 <= i < cs.len() && is_space(cs[i]) {
        1 + ws_run(cs, i + 1)
    } else {
        0
    }
}

/// White space at `i`, possibly none (`_`): the position after it.
pub open spec fn spec_skip_ws(cs: Seq<char>, i: int) -> int {
    i + ws_run(cs, i)
}

/// White space at `i`, at least one character of it (`__`): the position after it.
pub open spec fn spec_ws1(cs: Seq<char>, i: int) -> Option<int> {
    if ws_run(cs, i) > 0 {
        Some(i + ws_run(cs, i))
    } else {
        None
    }
}

/// A run of characters from a position inside the text ends inside it.
pub proof fn lemma_ws_run_bound(cs: Seq<char>, i: int)
    requires
        0 <= i <= cs.len(),
    ensures
        i + ws_run(cs, i) <= cs.len(),
    decreases cs.len() - i,
{
    if i < cs.len() && is_space(cs[i]) {
        lemma_ws_run_bound(cs, i + 1);
    }
}

/// White space at `i`, possibly none (`_`): the position after it.
#[verifier::loop_isolation(false)]
fn skip_ws(cs: &Vec<char>, i: usize) -> (r: usize)
    requires
        i <= cs@.len(),
    ensures
        r == spec_skip_ws(cs@, i as int),
        i <= r <= cs@.len(),
{
    let mut j = i;
    while j < cs.len() && (cs[j] == ' ' || cs[j] == '\n' || cs[j] == '\t')
        invariant
            i <= j <= cs@.len(),
            j + ws_run(cs@, j as int) == i + ws_run(cs@, i as int),
        decreases cs@.len() - j,
    {
        j = j + 1;
    }
    j
}

/// White space at `i`, at least one character of it (`__`).
fn ws1(cs: &Vec<char>, i: usize) -> (r: Option<usize>)
    requires
        i <= cs@.len(),
    ensures
        match r {
            Some(j) => spec_ws1(cs@, i as int) == Some(j as int),
            None => spec_ws1(cs@, i as int) is None,
        },
        r matches Some(j) ==> i < j <= cs@.len(),
{
    let j = skip_ws(cs, i);
    if j > i {
        Some(j)
    } else {
        None
    }
}

/// Whether `c` is a decimal digit.
pub open spec fn is_digit_char(c: char) -> bool {
    '0' <= c <= '9'
}

/// Whether `c` is a decimal digit.
fn is_digit(c: char) -> (r: bool)
    ensures
        r == is_digit_char(c),
{
    '0' <= c && c <= '9'
}

/// The value of a decimal digit.
pub open spec fn spec_digit(c: char) -> nat {
    match c {
        '1' => 1,
        '2' => 2,
        '3' => 3,
        '4' => 4,
        '5' => 5,
        '6' => 6,
        '7' => 7,
        '8' => 8,
        '9' => 9,
        _ => 0,
    }
}

/// The value of a decimal digit.
fn digit_value(c: char) -> (r: usize)
    ensures
        r == spec_digit(c),
        r < 10,
{
    match c {
        '1' => 1,
        '2' => 2,
        '3' => 3,
        '4' => 4,
        '5' => 5,
        '6' => 6,
        '7' => 7,
        '8' => 8,
        '9' => 9,
        _ => 0,
    }
}

/// The number of decimal digits from `i` on.
pub open spec fn digit_run(cs: Seq<char>, i: int) -> nat
    decreases cs.len() - i,
{
    if 0 <= i < cs.len() && is_digit_char(cs[i]) {
        1 + digit_run(cs, i + 1)
    } else {
        0
    }
}

/// The value of the `n` decimal digits at `i`.
pub open spec fn digits_value(cs: Seq<char>, i: int, n: nat) -> nat
    decreases n,
{
    if n == 0 {
        0
    } else {
        10 * digits_value(cs, i, (n - 1) as nat) + spec_digit(cs[i + n - 1])
    }
}

/// More digits are worth at least as much.
pub proof fn lemma_digits_value_grows(cs: Seq<char>, i: int, a: nat, b: nat)
    requires
        a <= b,
    ensures
        digits_value(cs, i, a) <= digits_value(cs, i, b),
    decreases b - a,
{
    if a < b {
        lemma_digits_value_grows(cs, i, a, (b - 1) as nat);
    }
}

/// A decimal number (`number`) at `i`: its value and the position after its digits. A number
/// too large for a machine word does not match.
pub open spec fn spec_number(cs: Seq<char>, i: int) -> Option<(usize, int)> {
    let n = digit_run(cs, i);
    if n == 0 || digits_value(cs, i, n) > usize::MAX {
        None
    } else {
        Some((digits_value(cs, i, n) as usize, i + n))
    }
}

/// A decimal number (`number`): digits, read as a machine word. A number too large for one
/// does not match.
#[verifier::loop_isolation(false)]
fn number(cs: &Vec<char>, i: usize) -> (r: Option<(usize, usize)>)
    requires
        i <= cs@.len(),
    ensures
        match r {
            Some((v, j)) => spec_number(cs@, i as int) == Some((v, j as int)),
            None => spec_number(cs@, i as int) is None,
        },
        r matches Some((_, j)) ==> i < j <= cs@.len(),
{
    let mut j = i;
    let mut v: usize = 0;
    while j < cs.len() && is_digit(cs[j])
        invariant
            i <= j <= cs@.len(),
            digit_run(cs@, i as int) == (j - i) + digit_run(cs@, j as int),
            v == digits_value(cs@, i as int, (j - i) as nat),
        decreases cs@.len() - j,
    {
        let d = digit_value(cs[j]);
        let ghost k: nat = (j - i) as nat;
        assert(digits_value(cs@, i as int, k + 1) == 10 * v + d);
        if v > (usize::MAX - d) / 10 {
            assert(10 * v + d > usize::MAX) by (nonlinear_arith)
                requires
                    v > (usize::MAX - d) / 10,
                    d < 10,
            ;
            proof {
                lemma_digits_value_grows(cs@, i as int, k + 1, digit_run(cs@, i as int));
            }
            return None;
        }
        assert(10 * v + d <= usize::MAX) by (nonlinear_arith)
            requires
                v <= (usize::MAX - d) / 10,
                d < 10,
        ;
        v = v * 10 + d;
        j = j + 1;
    }
    if j > i {
        Some((v, j))
    } else {
        None
    }
}

/// Whether `c` may start a name: a letter or `_`.
pub open spec fn is_id_start_char(c: char) -> bool {
    c == '_' || ('a' <= c <= 'z') || ('A' <= c <= 'Z')
}

/// The number of characters that may continue a name from `i` on: letters, digits and `_`.
pub open spec fn id_run(cs: Seq<char>, i: int) -> nat
    decreases cs.len() - i,
{
    if 0 <= i < cs.len() && (is_id_start_char(cs[i]) || is_digit_char(cs[i])) {
        1 + id_run(cs, i + 1)
    } else {
        0
    }
}

/// A name (`id`) at `i`: the position after it. A name is a letter or `_` followed by
/// letters, digits and `_`, or `%t` followed by digits.
pub open spec fn spec_id(cs: Seq<char>, i: int) -> Option<int> {
    if 0 <= i < cs.len() && is_id_start_char(cs[i]) {
        Some(i + 1 + id_run(cs, i + 1))
    } else if spec_is(cs, i, '%') && spec_is(cs, i + 1, 't') && digit_run(cs, i + 2) > 0 {
        Some(i + 2 + digit_run(cs, i + 2))
    } else {
        None
    }
}

/// Whether `c` may start a name: a letter or `_`.
fn is_id_start(c: char) -> (r: bool)
    ensures
        r == is_id_start_char(c),
{
    c == '_' || ('a' <= c && c <= 'z') || ('A' <= c && c <= 'Z')
}

/// A name (`id`): a letter or `_` followed by letters, digits and `_`, or `%t` and digits.
#[verifier::loop_isolation(false)]
fn id(text: &str, cs: &Vec<char>, i: usize) -> (r: Option<(String, usize)>)
    requires
        cs@ == text@,
        i <= cs@.len(),
    ensures
        match r {
            Some((s, j)) => spec_id(cs@, i as int) == Some(j as int) && s@ == cs@.subrange(i as int, j as int),
            None => spec_id(cs@, i as int) is None,
        },
        r matches Some((_, j)) ==> i < j <= cs@.len(),
{
    let mut j = i;
    if j < cs.len() && is_id_start(cs[j]) {
        j = j + 1;
        while j < cs.len() && (is_id_start(cs[j]) || is_digit(cs[j]))
            invariant
                i < j <= cs@.len(),
                (j - i - 1) + id_run(cs@, j as int) == id_run(cs@, i + 1),
            decreases cs@.len() - j,
        {
            j = j + 1;
        }
    } else if is_char(cs, j, '%') && is_char(cs, j + 1, 't') {
        j = j + 2;
        let start = j;
        while j < cs.len() && is_digit(cs[j])
            invariant
                start <= j <= cs@.len(),
                i + 2 == start,
                (j - start) + digit_run(cs@, j as int) == digit_run(cs@, start as int),
            decreases cs@.len() - j,
        {
            j = j + 1;
        }
        if j == start {
            return None;
        }
    } else {
        return None;
    }
    let s = String::from_str(text.substring_char(i, j));
    Some((s, j))
}

/// The digits of `decimal(n)` are decimal digits whose value is `n`.
proof fn lemma_decimal_digits(n: nat)
    ensures
        forall|k: int| 0 <= k < decimal(n).len() ==> is_digit_char(#[trigger] decimal(n)[k]),
        decimal(n).len() >= 1,
        digits_value(decimal(n), 0, decimal(n).len()) == n,
    decreases n,
{
    if n >= 10 {
        lemma_decimal_digits(n / 10);
        let p = decimal(n / 10);
        let s = decimal(n);
        let c = digit_char(n % 10);
        assert(s == p.push(c));
        assert(is_digit_char(c));
        assert forall|k: int| 0 <= k < s.len() implies is_digit_char(#[trigger] s[k]) by {
            if k < p.len() {
                assert(s[k] == p[k]);
            }
        }
        assert forall|m: int| 0 <= m < p.len() implies p[m] == s[m] by {}
        lemma_digits_value_prefix(p, s, p.len());
        assert(spec_digit(c) == n % 10);
        assert(digits_value(s, 0, s.len()) == 10 * digits_value(s, 0, p.len()) + spec_digit(s[s.len() - 1]));
        assert(digits_value(s, 0, p.len()) == n / 10);
        assert(10 * (n / 10) + n % 10 == n);
    } else {
        let s = decimal(n);
        assert(spec_digit(digit_char(n)) == n);
        assert(is_digit_char(digit_char(n)));
        assert(digits_value(s, 0, 0) == 0);
        assert(digits_value(s, 0, 1) == spec_digit(s[0]));
    }
}

/// The value of the first `k` digits depends only on them.
proof fn lemma_digits_value_prefix(p: Seq<char>, s: Seq<char>, k: nat)
    requires
        k <= p.len(),
        k <= s.len(),
        forall|m: int| 0 <= m < k ==> p[m] == s[m],
    ensures
        digits_value(p, 0, k) == digits_value(s, 0, k),
    decreases k,
{
    lemma_digits_value_shift(p, s, 0, k);
}

/// The value of `k` digits depends only on them, wherever they stand.
proof fn lemma_digits_value_shift(p: Seq<char>, s: Seq<char>, i: int, k: nat)
    requires
        0 <= i,
        k <= p.len(),
        i + k <= s.len(),
        forall|m: int| 0 <= m < k ==> p[m] == s[i + m],
    ensures
        digits_value(p, 0, k) == digits_value(s, i, k),
    decreases k,
{
    if k > 0 {
        lemma_digits_value_shift(p, s, i, (k - 1) as nat);
        assert(p[k - 1] == s[i + k - 1]);
    }
}

/// The digit run of a text starting with `d` digits then a non-digit is `d`.
proof fn lemma_digit_run_prefix(cs: Seq<char>, i: int, d: nat)
    requires
        0 <= i,
        i + d <= cs.len(),
        forall|k: int| i <= k < i + d ==> is_digit_char(#[trigger] cs[k]),
        i + d == cs.len() || !is_digit_char(cs[i + d]),
    ensures
        digit_run(cs, i) == d,
    decreases d,
{
    if d > 0 {
        lemma_digit_run_prefix(cs, i + 1, (d - 1) as nat);
    }
}

/// A number that the printer writes reads back as itself: the decimal notation of `n`, at `i`
/// and followed by anything but a digit, is read as `n`, up to its end.
pub proof fn lemma_number_reads_decimal(cs: Seq<char>, i: int, n: usize)
    requires
        0 <= i,
        i + decimal(n as nat).len() <= cs.len(),
        cs.subrange(i, i + decimal(n as nat).len()) == decimal(n as nat),
        i + decimal(n as nat).len() == cs.len() || !is_digit_char(cs[i + decimal(n as nat).len()]),
    ensures
        spec_number(cs, i) == Some((n, i + decimal(n as nat).len())),
{
    let p = decimal(n as nat);
    lemma_decimal_digits(n as nat);
    assert forall|m: int| 0 <= m < p.len() implies p[m] == cs[i + m] by {
        assert(cs.subrange(i, i + p.len())[m] == cs[i + m]);
    }
    assert forall|k: int| i <= k < i + p.len() implies is_digit_char(#[trigger] cs[k]) by {
        assert(p[k - i] == cs[i + (k - i)]);
    }
    lemma_digit_run_prefix(cs, i, p.len());
    lemma_digits_value_shift(p, cs, i, p.len());
}

/// The scalar types that the printer writes read back as themselves: the text of `unit`, an
/// integer type or a floating-point type, none of them `const`, followed by anything but a
/// digit, is read as that type itself (`dtype_inner`), up to its end; and where what follows is
/// neither white space nor `*`, it is read as that type (`dtype`) too.
pub proof fn lemma_scalar_dtype_reads_back(d: SpecDtype, rest: Seq<char>)
    requires
        d matches SpecDtype::Unit { is_const: false } || d matches SpecDtype::Int { is_const: false, .. }
            || d matches SpecDtype::Float { is_const: false, .. },
        rest.len() == 0 || !is_digit_char(rest[0]),
    ensures
        spec_dtype_inner(dtype_text(d) + rest, 0) == Some((d, dtype_text(d).len() as int)),
        rest.len() == 0 || (!is_space(rest[0]) && rest[0] != '*') ==> spec_dtype(dtype_text(d) + rest, 0) == Some(
            (d, dtype_text(d).len() as int),
        ),
{
    let cs = dtype_text(d) + rest;
    lemma_scalar_inner_reads_back(d, rest);
    let j = dtype_text(d).len() as int;
    if rest.len() == 0 || (!is_space(rest[0]) && rest[0] != '*') {
        if rest.len() > 0 {
            assert(cs[j] == rest[0]);
        }
        assert(ws_run(cs, j) == 0);
        assert(spec_skip_ws(cs, j) == j);
        assert(spec_pointer_suffix(cs, j) is None);
        assert(spec_suffixes(cs, d, j) == (d, j));
    }
}

/// The scalar types that the printer writes read back as themselves (`dtype_inner`).
proof fn lemma_scalar_inner_reads_back(d: SpecDtype, rest: Seq<char>)
    requires
        d matches SpecDtype::Unit { is_const: false } || d matches SpecDtype::Int { is_const: false, .. }
            || d matches SpecDtype::Float { is_const: false, .. },
        rest.len() == 0 || !is_digit_char(rest[0]),
    ensures
        spec_dtype_inner(dtype_text(d) + rest, 0) == Some((d, dtype_text(d).len() as int)),
        0 < dtype_text(d).len(),
{
    let cs = dtype_text(d) + rest;
    reveal_strlit("unit");
    reveal_strlit("u");
    reveal_strlit("i");
    reveal_strlit("f");
    reveal_strlit("");
    match d {
        SpecDtype::Unit { .. } => {
            assert(dtype_text(d) =~= "unit"@);
            assert(cs.subrange(0, 4) =~= "unit"@);
        },
        SpecDtype::Int { width, is_signed, .. } => {
            let t = dtype_text(d);
            let digits = decimal(width as nat);
            let c = if is_signed { 'i' } else { 'u' };
            assert(t =~= seq![c] + digits);
            lemma_decimal_digits(width as nat);
            assert(cs.subrange(1, 1 + digits.len() as int) =~= digits);
            if rest.len() > 0 {
                assert(cs[1 + digits.len() as int] == rest[0]);
            }
            assert(cs[0] == c);
            assert(cs[1] == digits[0]);
            lemma_number_reads_decimal(cs, 1, width);
            assert(spec_lit(cs, 0, "unit"@) is None) by {
                if spec_lit(cs, 0, "unit"@) is Some {
                    assert(cs.subrange(0, 4)[1] == 'n');
                    assert(is_digit_char(digits[0]));
                }
            }
        },
        SpecDtype::Float { width, .. } => {
            let t = dtype_text(d);
            let digits = decimal(width as nat);
            assert(t =~= seq!['f'] + digits);
            lemma_decimal_digits(width as nat);
            assert(cs.subrange(1, 1 + digits.len() as int) =~= digits);
            if rest.len() > 0 {
                assert(cs[1 + digits.len() as int] == rest[0]);
            }
            assert(cs[0] == 'f');
            assert(cs[1] == digits[0]);
            lemma_number_reads_decimal(cs, 1, width);
            assert(spec_lit(cs, 0, "unit"@) is None) by {
                if spec_lit(cs, 0, "unit"@) is Some {
                    assert(cs.subrange(0, 4)[0] == 'u');
                }
            }
        },
        _ => {},
    }
}

/// A global variable: `@` and its name.
pub open spec fn spec_global_variable(cs: Seq<char>, i: int) -> Option<int> {
    if spec_is(cs, i, '@') {
        spec_id(cs, i + 1)
    } else {
        None
    }
}

/// A global variable: `@` and its name.
fn global_variable(text: &str, cs: &Vec<char>, i: usize) -> (r: Option<(String, usize)>)
    requires
        cs@ == text@,
        i <= cs@.len(),
    ensures
        match r {
            Some((s, j)) => spec_global_variable(cs@, i as int) == Some(j as int) && s@ == cs@.subrange(
                i + 1,
                j as int,
            ),
            None => spec_global_variable(cs@, i as int) is None,
        },
        r matches Some((_, j)) ==> i < j <= cs@.len(),
{
    if is_char(cs, i, '@') {
        id(text, cs, i + 1)
    } else {
        None
    }
}

/// A block id: `b` and its number.
pub open spec fn spec_bid(cs: Seq<char>, i: int) -> Option<(BlockId, int)> {
    if spec_is(cs, i, 'b') {
        match spec_number(cs, i + 1) {
            Some((n, j)) => Some((BlockId(n), j)),
            None => None,
        }
    } else {
        None
    }
}

/// A block id: `b` and its number.
fn bid(cs: &Vec<char>, i: usize) -> (r: Option<(BlockId, usize)>)
    requires
        i <= cs@.len(),
    ensures
        match r {
            Some((b, j)) => spec_bid(cs@, i as int) == Some((b, j as int)),
            None => spec_bid(cs@, i as int) is None,
        },
        r matches Some((_, j)) ==> i < j <= cs@.len(),
{
    if is_char(cs, i, 'b') {
        match number(cs, i + 1) {
            Some((n, j)) => Some((BlockId(n), j)),
            None => None,
        }
    } else {
        None
    }
}

/// `_ c _`: a character `c` with white space, possibly none, on either side.
pub open spec fn spec_sep(cs: Seq<char>, i: int, c: char) -> Option<int> {
    let j = spec_skip_ws(cs, i);
    if spec_is(cs, j, c) {
        Some(spec_skip_ws(cs, j + 1))
    } else {
        None
    }
}

/// `_ c _`: a character `c` with white space, possibly none, on either side.
fn sep(cs: &Vec<char>, i: usize, c: char) -> (r: Option<usize>)
    requires
        i <= cs@.len(),
    ensures
        match r {
            Some(j) => spec_sep(cs@, i as int, c) == Some(j as int),
            None => spec_sep(cs@, i as int, c) is None,
        },
        r matches Some(j) ==> i < j <= cs@.len(),
{
    let j = skip_ws(cs, i);
    if is_char(cs, j, c) {
        Some(skip_ws(cs, j + 1))
    } else {
        None
    }
}

/// A pointer suffix (`is_const_of_pointer`) at `i`: white space, `*`, and possibly white space
/// and `const`; whether it is `const`, and the position after it.
pub open spec fn spec_pointer_suffix(cs: Seq<char>, i: int) -> Option<(bool, int)> {
    let j = spec_skip_ws(cs, i);
    if spec_is(cs, j, '*') {
        match spec_lit(cs, spec_skip_ws(cs, j + 1), "const"@) {
            Some(e) => Some((true, e)),
            None => Some((false, j + 1)),
        }
    } else {
        None
    }
}

/// A pointer suffix (`is_const_of_pointer`): white space, `*`, and possibly white space and
/// `const`; whether it is `const`.
fn pointer_suffix(cs: &Vec<char>, i: usize) -> (r: Option<(bool, usize)>)
    requires
        i <= cs@.len(),
    ensures
        match r {
            Some((c, j)) => spec_pointer_suffix(cs@, i as int) == Some((c, j as int)),
            None => spec_pointer_suffix(cs@, i as int) is None,
        },
        r matches Some((_, j)) ==> i < j <= cs@.len(),
{
    let j = skip_ws(cs, i);
    if !is_char(cs, j, '*') {
        return None;
    }
    let k = skip_ws(cs, j + 1);
    match lit(cs, k, "const") {
        Some(e) => Some((true, e)),
        None => Some((false, j + 1)),
    }
}

/// The type that the pointer suffixes from `j` on make of `d`, each a pointer to what comes
/// before it, and the position after them.
pub open spec fn spec_suffixes(cs: Seq<char>, d: SpecDtype, j: int) -> (SpecDtype, int)
    decreases cs.len() - j,
{
    if 0 <= j <= cs.len() {
        match spec_pointer_suffix(cs, spec_skip_ws(cs, j)) {
            Some((c, e)) => if j < e <= cs.len() {
                spec_suffixes(cs, spec_set_const(SpecDtype::Pointer { inner: Box::new(d), is_const: false }, c), e)
            } else {
                (d, j)
            },
            None => (d, j),
        }
    } else {
        (d, j)
    }
}

/// A data type (`dtype`) at `i`: an inner type followed by pointer suffixes.
pub open spec fn spec_dtype(cs: Seq<char>, i: int) -> Option<(SpecDtype, int)>
    decreases cs.len() - i, 2nat,
{
    if !(0 <= i <= cs.len()) {
        None
    } else {
        match spec_dtype_inner(cs, i) {
            Some((d, j)) => Some(spec_suffixes(cs, d, j)),
            None => None,
        }
    }
}

/// Data types separated by commas with white space around them, possibly none, at `i`.
pub open spec fn spec_dtype_list(cs: Seq<char>, i: int) -> (Seq<SpecDtype>, int)
    decreases cs.len() - i, 3nat,
{
    if !(0 <= i <= cs.len()) {
        (seq![], i)
    } else {
        match spec_dtype(cs, i) {
            Some((d, j)) => if i < j <= cs.len() {
                let (rest, e) = spec_dtype_list_tail(cs, j);
                (seq![d] + rest, e)
            } else {
                (seq![], i)
            },
            None => (seq![], i),
        }
    }
}

/// The data types after the first of a list, each after a comma, at `j`.
pub open spec fn spec_dtype_list_tail(cs: Seq<char>, j: int) -> (Seq<SpecDtype>, int)
    decreases cs.len() - j, 3nat,
{
    if !(0 <= j <= cs.len()) {
        (seq![], j)
    } else {
        match spec_sep(cs, j, ',') {
            Some(k) => if j < k <= cs.len() {
                match spec_dtype(cs, k) {
                    Some((d, e)) => if k < e <= cs.len() {
                        let (rest, e2) = spec_dtype_list_tail(cs, e);
                        (seq![d] + rest, e2)
                    } else {
                        (seq![], j)
                    },
                    None => (seq![], j),
                }
            } else {
                (seq![], j)
            },
            None => (seq![], j),
        }
    }
}

/// An array type at `i`: `[`, its size, `x` and its element type.
pub open spec fn spec_array_dtype(cs: Seq<char>, i: int) -> Option<(SpecDtype, int)>
    decreases cs.len() - i, 0nat,
{
    if 0 <= i <= cs.len() && spec_is(cs, i, '[') {
        match spec_number(cs, spec_skip_ws(cs, i + 1)) {
            Some((n, j)) => match spec_ws1(cs, j) {
                Some(j) => match spec_lit(cs, j, "x"@) {
                    Some(j) => match spec_ws1(cs, j) {
                        Some(j) => if i < j <= cs.len() {
                            match spec_dtype(cs, j) {
                                Some((inner, j)) => {
                                    let k = spec_skip_ws(cs, j);
                                    if spec_is(cs, k, ']') {
                                        Some((SpecDtype::Array { inner: Box::new(inner), size: n }, k + 1))
                                    } else {
                                        None
                                    }
                                },
                                None => None,
                            }
                        } else {
                            None
                        },
                        None => None,
                    },
                    None => None,
                },
                None => None,
            },
            None => None,
        }
    } else {
        None
    }
}

/// A function type at `i`: `[ret:`, its return type, `params:(`, its parameter types and `)]`.
pub open spec fn spec_function_dtype(cs: Seq<char>, i: int) -> Option<(SpecDtype, int)>
    decreases cs.len() - i, 0nat,
{
    if !(0 <= i <= cs.len()) {
        None
    } else {
        match spec_lit(cs, i, "[ret:"@) {
            Some(j) => {
                let j = spec_skip_ws(cs, j);
                if i < j <= cs.len() {
                    match spec_dtype(cs, j) {
                        Some((ret, j)) => match spec_ws1(cs, j) {
                            Some(j) => match spec_lit(cs, j, "params:("@) {
                                Some(j) => if i < j <= cs.len() {
                                    let (params, j) = spec_dtype_list(cs, j);
                                    match spec_lit(cs, spec_skip_ws(cs, j), ")]"@) {
                                        Some(k) => Some((SpecDtype::Function { ret: Box::new(ret), params }, k)),
                                        None => None,
                                    }
                                } else {
                                    None
                                },
                                None => None,
                            },
                            None => None,
                        },
                        None => None,
                    }
                } else {
                    None
                }
            },
            None => None,
        }
    }
}

/// A named struct type at `i`: `struct` and its name.
pub open spec fn spec_struct_dtype(cs: Seq<char>, i: int) -> Option<(SpecDtype, int)> {
    match spec_lit(cs, i, "struct"@) {
        Some(j) => match spec_ws1(cs, j) {
            Some(j) => match spec_id(cs, j) {
                Some(k) => Some(
                    (
                        SpecDtype::Struct {
                            name: Some(cs.subrange(j, k)),
                            fields: None,
                            is_const: false,
                            size_align_offsets: None,
                        },
                        k,
                    ),
                ),
                None => None,
            },
            None => None,
        },
        None => None,
    }
}

/// A number after a letter at `i`: the letter `c`, then a decimal number.
pub open spec fn spec_tagged_number(cs: Seq<char>, i: int, c: char) -> Option<(usize, int)> {
    if spec_is(cs, i, c) {
        spec_number(cs, i + 1)
    } else {
        None
    }
}

/// The type itself of a data type (`dtype_inner`) at `i`: the first of these that matches:
/// `unit`, `u<n>`, `i<n>`, `f<n>`, an array, a function type, `struct name`, or `const` and
/// white space before one of them.
pub open spec fn spec_dtype_inner(cs: Seq<char>, i: int) -> Option<(SpecDtype, int)>
    decreases cs.len() - i, 1nat,
{
    if !(0 <= i <= cs.len()) {
        None
    } else if spec_lit(cs, i, "unit"@) is Some {
        Some((SpecDtype::Unit { is_const: false }, spec_lit(cs, i, "unit"@)->0))
    } else if spec_tagged_number(cs, i, 'u') is Some {
        let (n, j) = spec_tagged_number(cs, i, 'u')->0;
        Some((SpecDtype::Int { width: n, is_signed: false, is_const: false }, j))
    } else if spec_tagged_number(cs, i, 'i') is Some {
        let (n, j) = spec_tagged_number(cs, i, 'i')->0;
        Some((SpecDtype::Int { width: n, is_signed: true, is_const: false }, j))
    } else if spec_tagged_number(cs, i, 'f') is Some {
        let (n, j) = spec_tagged_number(cs, i, 'f')->0;
        Some((SpecDtype::Float { width: n, is_const: false }, j))
    } else if spec_array_dtype(cs, i) is Some {
        spec_array_dtype(cs, i)
    } else if spec_function_dtype(cs, i) is Some {
        spec_function_dtype(cs, i)
    } else if spec_struct_dtype(cs, i) is Some {
        spec_struct_dtype(cs, i)
    } else {
        match spec_lit(cs, i, "const"@) {
            Some(j) => match spec_ws1(cs, j) {
                Some(j) => if i < j <= cs.len() {
                    match spec_dtype_inner(cs, j) {
                        Some((d, k)) => Some((spec_set_const(d, true), k)),
                        None => None,
                    }
                } else {
                    None
                },
                None => None,
            },
            None => None,
        }
    }
}

/// A data type (`dtype`): an inner type followed by pointer suffixes, each making a pointer to
/// what comes before it.
#[verifier::loop_isolation(false)]
fn dtype(text: &str, cs: &Vec<char>, i: usize) -> (r: Option<(Dtype, usize)>)
    requires
        cs@ == text@,
        i <= cs@.len(),
    ensures
        match r {
            Some((d, j)) => spec_dtype(cs@, i as int) == Some((d@, j as int)),
            None => spec_dtype(cs@, i as int) is None,
        },
        r matches Some((_, j)) ==> i < j <= cs@.len(),
    decreases cs@.len() - i, 2nat,
{
    let (mut d, mut j) = match dtype_inner(text, cs, i) {
        Some(x) => x,
        None => {
            return None;
        },
    };
    loop
        invariant
            i < j <= cs@.len(),
            spec_dtype(cs@, i as int) == Some(spec_suffixes(cs@, d@, j as int)),
        decreases cs@.len() - j,
    {
        let k = skip_ws(cs, j);
        match pointer_suffix(cs, k) {
            Some((c, e)) => {
                d = Dtype::pointer(d).set_const(c);
                j = e;
            },
            None => {
                return Some((d, j));
            },
        }
    }
}

/// A list of data types separated by commas with white space around them, possibly empty.
#[verifier::loop_isolation(false)]
fn dtype_list(text: &str, cs: &Vec<char>, i: usize) -> (r: (Vec<Dtype>, usize))
    requires
        cs@ == text@,
        i <= cs@.len(),
    ensures
        spec_dtype_list(cs@, i as int) == (dtypes_view(r.0@), r.1 as int),
        i <= r.1 <= cs@.len(),
    decreases cs@.len() - i, 3nat,
{
    let mut out: Vec<Dtype> = Vec::new();
    let mut j = match dtype(text, cs, i) {
        Some((d, e)) => {
            out.push(d);
            e
        },
        None => {
            assert(dtypes_view(out@) =~= seq![]);
            return (out, i);
        },
    };
    assert(dtypes_view(out@) =~= seq![out@[0]@]);
    loop
        invariant
            i < j <= cs@.len(),
            spec_dtype_list(cs@, i as int) == (
                dtypes_view(out@) + spec_dtype_list_tail(cs@, j as int).0,
                spec_dtype_list_tail(cs@, j as int).1,
            ),
        decreases cs@.len() - j,
    {
        let k = match sep(cs, j, ',') {
            Some(k) => k,
            None => {
                assert(dtypes_view(out@) + seq![] =~= dtypes_view(out@));
                return (out, j);
            },
        };
        match dtype(text, cs, k) {
            Some((d, e)) => {
                let ghost before = out@;
                out.push(d);
                assert(dtypes_view(out@) =~= dtypes_view(before).push(d@));
                assert(dtypes_view(before) + (seq![d@] + spec_dtype_list_tail(cs@, e as int).0) =~= dtypes_view(
                    out@,
                ) + spec_dtype_list_tail(cs@, e as int).0);
                j = e;
            },
            None => {
                assert(dtypes_view(out@) + seq![] =~= dtypes_view(out@));
                return (out, j);
            },
        }
    }
}

/// The type itself of a data type (`dtype_inner`): `unit`, `u<n>`, `i<n>`, `f<n>`, an array
/// `[n x t]`, a function `[ret:t params:(..)]`, `struct name`, or `const` and one of them.
#[verifier::spinoff_prover]
fn dtype_inner(text: &str, cs: &Vec<char>, i: usize) -> (r: Option<(Dtype, usize)>)
    requires
        cs@ == text@,
        i <= cs@.len(),
    ensures
        match r {
            Some((d, j)) => spec_dtype_inner(cs@, i as int) == Some((d@, j as int)),
            None => spec_dtype_inner(cs@, i as int) is None,
        },
        r matches Some((_, j)) ==> i < j <= cs@.len(),
    decreases cs@.len() - i, 1nat,
{
    if let Some(j) = lit(cs, i, "unit") {
        return Some((Dtype::unit(), j));
    }
    if is_char(cs, i, 'u') {
        if let Some((n, j)) = number(cs, i + 1) {
            return Some((Dtype::integer(n).set_signed(false), j));
        }
    }
    if is_char(cs, i, 'i') {
        if let Some((n, j)) = number(cs, i + 1) {
            return Some((Dtype::integer(n), j));
        }
    }
    if is_char(cs, i, 'f') {
        if let Some((n, j)) = number(cs, i + 1) {
            return Some((Dtype::float(n), j));
        }
    }
    if let Some(x) = array_dtype(text, cs, i) {
        return Some(x);
    }
    if let Some(x) = function_dtype(text, cs, i) {
        return Some(x);
    }
    if let Some(j) = lit(cs, i, "struct") {
        if let Some(j) = ws1(cs, j) {
            if let Some((name, k)) = id(text, cs, j) {
                return Some((Dtype::structure(Some(name), None), k));
            }
        }
    }
    if let Some(j) = lit(cs, i, "const") {
        if let Some(j) = ws1(cs, j) {
            if let Some((d, k)) = dtype_inner(text, cs, j) {
                return Some((d.set_const(true), k));
            }
        }
    }
    None
}

/// An array type: `[`, its size, `x` and its element type, then `]`.
#[verifier::spinoff_prover]
fn array_dtype(text: &str, cs: &Vec<char>, i: usize) -> (r: Option<(Dtype, usize)>)
    requires
        cs@ == text@,
        i <= cs@.len(),
    ensures
        match r {
            Some((d, j)) => spec_array_dtype(cs@, i as int) == Some((d@, j as int)),
            None => spec_array_dtype(cs@, i as int) is None,
        },
        r matches Some((_, j)) ==> i < j <= cs@.len(),
    decreases cs@.len() - i, 0nat,
{
    if is_char(cs, i, '[') {
        let j = skip_ws(cs, i + 1);
        if let Some((n, j)) = number(cs, j) {
            if let Some(j) = ws1(cs, j) {
                if let Some(j) = lit(cs, j, "x") {
                    if let Some(j) = ws1(cs, j) {
                        if let Some((inner, j)) = dtype(text, cs, j) {
                            let j = skip_ws(cs, j);
                            if is_char(cs, j, ']') {
                                return Some((Dtype::Array { inner: Box::new(inner), size: n }, j + 1));
                            }
                        }
                    }
                }
            }
        }
    }
    None
}

/// A function type: `[ret:`, its return type, `params:(`, its parameter types and `)]`.
#[verifier::spinoff_prover]
fn function_dtype(text: &str, cs: &Vec<char>, i: usize) -> (r: Option<(Dtype, usize)>)
    requires
        cs@ == text@,
        i <= cs@.len(),
    ensures
        match r {
            Some((d, j)) => spec_function_dtype(cs@, i as int) == Some((d@, j as int)),
            None => spec_function_dtype(cs@, i as int) is None,
        },
        r matches Some((_, j)) ==> i < j <= cs@.len(),
    decreases cs@.len() - i, 0nat,
{
    if let Some(j) = lit(cs, i, "[ret:") {
        let j = skip_ws(cs, j);
        if let Some((ret, j)) = dtype(text, cs, j) {
            if let Some(j) = ws1(cs, j) {
                if let Some(j) = lit(cs, j, "params:(") {
                    let (params, j) = dtype_list(text, cs, j);
                    let j = skip_ws(cs, j);
                    if let Some(j) = lit(cs, j, ")]") {
                        return Some((Dtype::function(ret, params), j));
                    }
                }
            }
        }
    }
    None
}

/// `s` followed by at least one white space character, at `i`.
pub open spec fn spec_keyword(cs: Seq<char>, i: int, s: Seq<char>) -> Option<int> {
    match spec_lit(cs, i, s) {
        Some(j) => spec_ws1(cs, j),
        None => None,
    }
}

/// The form of a constant as written before its type.
pub enum ConstantForm {
    Number,
    Undef,
    Unit,
    Global,
}

/// The form of a constant that is read.
pub open spec fn constant_form(c: Constant) -> ConstantForm {
    match c {
        Constant::Undef { .. } => ConstantForm::Undef,
        Constant::Unit => ConstantForm::Unit,
        Constant::GlobalVariable { .. } => ConstantForm::Global,
        _ => ConstantForm::Number,
    }
}

/// A constant at `i` (`constant`): a decimal number, possibly negated, `undef`, `unit` or a
/// global variable; its form and the position after it.
pub open spec fn spec_constant(cs: Seq<char>, i: int) -> Option<(ConstantForm, int)> {
    if spec_number(cs, i) is Some {
        Some((ConstantForm::Number, spec_number(cs, i)->0 .1))
    } else if spec_is(cs, i, '-') && spec_number(cs, i + 1) is Some {
        Some((ConstantForm::Number, spec_number(cs, i + 1)->0 .1))
    } else if spec_lit(cs, i, "undef"@) is Some {
        Some((ConstantForm::Undef, spec_lit(cs, i, "undef"@)->0))
    } else if spec_lit(cs, i, "unit"@) is Some {
        Some((ConstantForm::Unit, spec_lit(cs, i, "unit"@)->0))
    } else if spec_global_variable(cs, i) is Some {
        Some((ConstantForm::Global, spec_global_variable(cs, i)->0))
    } else {
        None
    }
}

/// The type of a constant of form `f` written with type `d`, if it may have that type: a
/// global variable needs a pointer type.
pub open spec fn typed_constant_dtype(f: ConstantForm, d: SpecDtype) -> Option<SpecDtype> {
    match f {
        ConstantForm::Number => match d {
            SpecDtype::Int { width, is_signed, .. } => Some(SpecDtype::Int { width, is_signed, is_const: false }),
            _ => Some(SpecDtype::Int { width: 128, is_signed: true, is_const: false }),
        },
        ConstantForm::Undef => Some(d),
        ConstantForm::Unit => Some(SpecDtype::Unit { is_const: false }),
        ConstantForm::Global => match d {
            SpecDtype::Pointer { inner, .. } => Some(SpecDtype::Pointer { inner, is_const: false }),
            _ => None,
        },
    }
}

/// A register at `i`: `%l<n>`, `%b<n>:p<n>` or `%b<n>:i<n>`; the position after it.
pub open spec fn spec_register_id(cs: Seq<char>, i: int) -> Option<int> {
    if spec_lit(cs, i, "%l"@) is Some && spec_number(cs, spec_lit(cs, i, "%l"@)->0) is Some {
        Some(spec_number(cs, spec_lit(cs, i, "%l"@)->0)->0 .1)
    } else if spec_is(cs, i, '%') && spec_bid(cs, i + 1) is Some {
        let j = spec_bid(cs, i + 1)->0 .1;
        if spec_lit(cs, j, ":p"@) is Some && spec_number(cs, spec_lit(cs, j, ":p"@)->0) is Some {
            Some(spec_number(cs, spec_lit(cs, j, ":p"@)->0)->0 .1)
        } else if spec_lit(cs, j, ":i"@) is Some && spec_number(cs, spec_lit(cs, j, ":i"@)->0) is Some {
            Some(spec_number(cs, spec_lit(cs, j, ":i"@)->0)->0 .1)
        } else {
            None
        }
    } else {
        None
    }
}

/// An operand at `i`: a constant or a register, `:` and its type; the operand's type, whether
/// it is a constant, and the position after it.
pub open spec fn spec_operand(cs: Seq<char>, i: int) -> Option<(SpecDtype, bool, int)> {
    let as_constant: Option<(SpecDtype, bool, int)> = match spec_constant(cs, i) {
        Some((f, j)) => if spec_is(cs, j, ':') {
            match spec_dtype(cs, j + 1) {
                Some((d, k)) => match typed_constant_dtype(f, d) {
                    Some(t) => Some((t, true, k)),
                    None => None,
                },
                None => None,
            }
        } else {
            None
        },
        None => None,
    };
    if as_constant is Some {
        as_constant
    } else {
        match spec_register_id(cs, i) {
            Some(j) => if spec_is(cs, j, ':') {
                match spec_dtype(cs, j + 1) {
                    Some((d, k)) => Some((d, false, k)),
                    None => None,
                }
            } else {
                None
            },
            None => None,
        }
    }
}

/// Operands separated by commas, possibly none, at `i`: the position after them.
pub open spec fn spec_operand_list(cs: Seq<char>, i: int) -> int {
    match spec_operand(cs, i) {
        Some((_, _, j)) => if i < j <= cs.len() {
            spec_operand_list_tail(cs, j)
        } else {
            i
        },
        None => i,
    }
}

/// The operands after the first of a list, each after a comma, at `j`.
pub open spec fn spec_operand_list_tail(cs: Seq<char>, j: int) -> int
    decreases cs.len() - j,
{
    match spec_sep(cs, j, ',') {
        Some(k) => match spec_operand(cs, k) {
            Some((_, _, e)) => if j < e <= cs.len() {
                spec_operand_list_tail(cs, e)
            } else {
                j
            },
            None => j,
        },
        None => j,
    }
}

/// A jump at `i`: a block id and its arguments in parentheses.
pub open spec fn spec_jump_arg(cs: Seq<char>, i: int) -> Option<int> {
    match spec_bid(cs, i) {
        Some((_, j)) => match spec_sep(cs, j, '(') {
            Some(j) => {
                let k = spec_skip_ws(cs, spec_operand_list(cs, j));
                if spec_is(cs, k, ')') {
                    Some(k + 1)
                } else {
                    None
                }
            },
            None => None,
        },
        None => None,
    }
}

/// The first of the words `ws` at `i`: the position after it.
pub open spec fn spec_first_lit(cs: Seq<char>, i: int, ws: Seq<Seq<char>>) -> Option<int>
    decreases ws.len(),
{
    if ws.len() == 0 {
        None
    } else if spec_lit(cs, i, ws[0]) is Some {
        spec_lit(cs, i, ws[0])
    } else {
        spec_first_lit(cs, i, ws.drop_first())
    }
}

/// The names of the unary operations.
pub open spec fn unary_names() -> Seq<Seq<char>> {
    seq!["plus"@, "minus"@, "negate"@]
}

/// The names of the arithmetic, shift and bitwise operations.
pub open spec fn binary_names() -> Seq<Seq<char>> {
    seq!["add"@, "sub"@, "mul"@, "div"@, "mod"@, "shl"@, "shr"@, "and"@, "xor"@, "or"@]
}

/// The names of the comparisons.
pub open spec fn relation_names() -> Seq<Seq<char>> {
    seq!["eq"@, "ne"@, "lt"@, "le"@, "gt"@, "ge"@]
}

/// Two operands separated by white space at `i`: their types and the position after them.
pub open spec fn spec_operand_pair(cs: Seq<char>, i: int) -> Option<(SpecDtype, SpecDtype, int)> {
    match spec_operand(cs, i) {
        Some((a, _, j)) => match spec_ws1(cs, j) {
            Some(j) => match spec_operand(cs, j) {
                Some((b, _, k)) => Some((a, b, k)),
                None => None,
            },
            None => None,
        },
        None => None,
    }
}

/// A call at `i`: the callee must have a pointer to a function type.
pub open spec fn spec_call(cs: Seq<char>, i: int) -> Option<int> {
    match spec_keyword(cs, i, "call"@) {
        Some(j) => match spec_operand(cs, j) {
            Some((d, _, j)) => match spec_sep(cs, j, '(') {
                Some(j) => {
                    let k = spec_skip_ws(cs, spec_operand_list(cs, j));
                    if spec_is(cs, k, ')') && (d matches SpecDtype::Pointer { inner, .. } && *inner is Function) {
                        Some(k + 1)
                    } else {
                        None
                    }
                },
                None => None,
            },
            None => None,
        },
        None => None,
    }
}

/// An operation on operands at `i`: a unary operation, then an arithmetic, shift or bitwise
/// operation on operands of one type, then a comparison of operands of one type. Once the
/// operands of a binary operation are read, their types decide.
pub open spec fn spec_operation(cs: Seq<char>, i: int) -> Option<int> {
    let unary: Option<int> = match spec_first_lit(cs, i, unary_names()) {
        Some(j) => match spec_ws1(cs, j) {
            Some(j) => match spec_operand(cs, j) {
                Some((_, _, k)) => Some(k),
                None => None,
            },
            None => None,
        },
        None => None,
    };
    let binary: Option<Option<int>> = match spec_first_lit(cs, i, binary_names()) {
        Some(j) => match spec_ws1(cs, j) {
            Some(j) => match spec_operand_pair(cs, j) {
                Some((a, b, k)) => Some(if a == b { Some(k) } else { None }),
                None => None,
            },
            None => None,
        },
        None => None,
    };
    let relation: Option<Option<int>> = match spec_keyword(cs, i, "cmp"@) {
        Some(j) => match spec_first_lit(cs, j, relation_names()) {
            Some(j) => match spec_ws1(cs, j) {
                Some(j) => match spec_operand_pair(cs, j) {
                    Some((a, b, k)) => Some(if a == b { Some(k) } else { None }),
                    None => None,
                },
                None => None,
            },
            None => None,
        },
        None => None,
    };
    if unary is Some {
        unary
    } else if binary is Some {
        binary->0
    } else if relation is Some {
        relation->0
    } else {
        None
    }
}

/// What an instruction computes at `i` (`instruction_inner`): the first of `nop`, `load`,
/// `store`, `call`, `typecast`, an operation and `getelementptr` that matches.
pub open spec fn spec_instruction_inner(cs: Seq<char>, i: int) -> Option<int> {
    let load: Option<int> = match spec_keyword(cs, i, "load"@) {
        Some(j) => match spec_operand(cs, j) {
            Some((_, _, k)) => Some(k),
            None => None,
        },
        None => None,
    };
    let store: Option<int> = match spec_keyword(cs, i, "store"@) {
        Some(j) => match spec_operand_pair(cs, j) {
            Some((_, _, k)) => Some(k),
            None => None,
        },
        None => None,
    };
    let typecast: Option<int> = match spec_keyword(cs, i, "typecast"@) {
        Some(j) => match spec_operand(cs, j) {
            Some((_, _, j)) => match spec_ws1(cs, j) {
                Some(j) => match spec_keyword(cs, j, "to"@) {
                    Some(j) => match spec_dtype(cs, j) {
                        Some((_, k)) => Some(k),
                        None => None,
                    },
                    None => None,
                },
                None => None,
            },
            None => None,
        },
        None => None,
    };
    let gep: Option<int> = match spec_keyword(cs, i, "getelementptr"@) {
        Some(j) => match spec_operand(cs, j) {
            Some((_, _, j)) => match spec_ws1(cs, j) {
                Some(j) => match spec_keyword(cs, j, "offset"@) {
                    Some(j) => match spec_operand(cs, j) {
                        Some((_, _, k)) => Some(k),
                        None => None,
                    },
                    None => None,
                },
                None => None,
            },
            None => None,
        },
        None => None,
    };
    if spec_lit(cs, i, "nop"@) is Some {
        spec_lit(cs, i, "nop"@)
    } else if load is Some {
        load
    } else if store is Some {
        store
    } else if spec_call(cs, i) is Some {
        spec_call(cs, i)
    } else if typecast is Some {
        typecast
    } else if spec_operation(cs, i) is Some {
        spec_operation(cs, i)
    } else {
        gep
    }
}

/// An optional name at `i`: `:` and a name, or nothing; the position after it.
pub open spec fn spec_optional_name(cs: Seq<char>, i: int) -> int {
    if spec_is(cs, i, ':') && spec_id(cs, i + 1) is Some {
        spec_id(cs, i + 1)->0
    } else {
        i
    }
}

/// A register's block id, `:`, the letters `tag` and its number at `i`.
pub open spec fn spec_register_head(cs: Seq<char>, i: int, tag: Seq<char>) -> Option<(BlockId, usize, int)> {
    if spec_is(cs, i, '%') {
        match spec_bid(cs, i + 1) {
            Some((b, j)) => match spec_lit(cs, j, tag) {
                Some(j) => match spec_number(cs, j) {
                    Some((n, k)) => Some((b, n, k)),
                    None => None,
                },
                None => None,
            },
            None => None,
        }
    } else {
        None
    }
}

/// A phi node at `i`: its block id and number, and the position after it.
pub open spec fn spec_phinode(cs: Seq<char>, i: int) -> Option<(BlockId, usize, int)> {
    match spec_register_head(cs, i, ":p"@) {
        Some((b, n, j)) => if spec_is(cs, j, ':') {
            match spec_dtype(cs, j + 1) {
                Some((_, k)) => Some((b, n, spec_optional_name(cs, k))),
                None => None,
            }
        } else {
            None
        },
        None => None,
    }
}

/// An instruction at `i`: its block id and number, and the position after it.
pub open spec fn spec_instruction(cs: Seq<char>, i: int) -> Option<(BlockId, usize, int)> {
    match spec_register_head(cs, i, ":i"@) {
        Some((b, n, j)) => if spec_is(cs, j, ':') {
            match spec_dtype(cs, j + 1) {
                Some((_, k)) => match spec_sep(cs, spec_optional_name(cs, k), '=') {
                    Some(j) => match spec_instruction_inner(cs, j) {
                        Some(e) => Some((b, n, e)),
                        None => None,
                    },
                    None => None,
                },
                None => None,
            }
        } else {
            None
        },
        None => None,
    }
}

/// A switch case at `i`: an operand, which must be a constant, and a jump.
pub open spec fn spec_switch_case(cs: Seq<char>, i: int) -> Option<int> {
    match spec_operand(cs, i) {
        Some((_, is_constant, j)) => match spec_ws1(cs, j) {
            Some(j) => match spec_jump_arg(cs, j) {
                Some(k) => if is_constant {
                    Some(k)
                } else {
                    None
                },
                None => None,
            },
            None => None,
        },
        None => None,
    }
}

/// Switch cases separated by white space, possibly none, at `i`: the position after them.
pub open spec fn spec_switch_cases(cs: Seq<char>, i: int) -> int {
    match spec_switch_case(cs, i) {
        Some(j) => if i < j <= cs.len() {
            spec_switch_cases_tail(cs, j)
        } else {
            i
        },
        None => i,
    }
}

/// The switch cases after the first, each after white space, at `j`.
pub open spec fn spec_switch_cases_tail(cs: Seq<char>, j: int) -> int
    decreases cs.len() - j,
{
    match spec_ws1(cs, j) {
        Some(k) => match spec_switch_case(cs, k) {
            Some(e) => if j < e <= cs.len() {
                spec_switch_cases_tail(cs, e)
            } else {
                j
            },
            None => j,
        },
        None => j,
    }
}

/// How a block ends, at `i`: the first of `j`, `br`, `switch`, `ret` and `unreachable` that
/// matches.
pub open spec fn spec_exit(cs: Seq<char>, i: int) -> Option<int> {
    let jump: Option<int> = match spec_keyword(cs, i, "j"@) {
        Some(j) => spec_jump_arg(cs, j),
        None => None,
    };
    let branch: Option<int> = match spec_keyword(cs, i, "br"@) {
        Some(j) => match spec_operand(cs, j) {
            Some((_, _, j)) => match spec_sep(cs, j, ',') {
                Some(j) => match spec_jump_arg(cs, j) {
                    Some(j) => match spec_sep(cs, j, ',') {
                        Some(j) => spec_jump_arg(cs, j),
                        None => None,
                    },
                    None => None,
                },
                None => None,
            },
            None => None,
        },
        None => None,
    };
    let switch: Option<int> = match spec_keyword(cs, i, "switch"@) {
        Some(j) => match spec_operand(cs, j) {
            Some((_, _, j)) => match spec_ws1(cs, j) {
                Some(j) => match spec_keyword(cs, j, "default"@) {
                    Some(j) => match spec_jump_arg(cs, j) {
                        Some(j) => match spec_sep(cs, j, '[') {
                            Some(j) => {
                                let k = spec_skip_ws(cs, spec_switch_cases(cs, j));
                                if spec_is(cs, k, ']') {
                                    Some(k + 1)
                                } else {
                                    None
                                }
                            },
                            None => None,
                        },
                        None => None,
                    },
                    None => None,
                },
                None => None,
            },
            None => None,
        },
        None => None,
    };
    let ret: Option<int> = match spec_keyword(cs, i, "ret"@) {
        Some(j) => match spec_operand(cs, j) {
            Some((_, _, k)) => Some(k),
            None => None,
        },
        None => None,
    };
    if jump is Some {
        jump
    } else if branch is Some {
        branch
    } else if switch is Some {
        switch
    } else if ret is Some {
        ret
    } else {
        spec_lit(cs, i, "unreachable"@)
    }
}

/// Phi nodes separated by white space, possibly none, at `i`: their block ids and numbers, and
/// the position after them.
pub open spec fn spec_phinodes(cs: Seq<char>, i: int) -> (Seq<(BlockId, usize)>, int) {
    match spec_phinode(cs, i) {
        Some((b, n, j)) => if i < j <= cs.len() {
            let (rest, e) = spec_phinodes_tail(cs, j);
            (seq![(b, n)] + rest, e)
        } else {
            (seq![], i)
        },
        None => (seq![], i),
    }
}

/// The phi nodes after the first, each after white space, at `j`.
pub open spec fn spec_phinodes_tail(cs: Seq<char>, j: int) -> (Seq<(BlockId, usize)>, int)
    decreases cs.len() - j,
{
    match spec_ws1(cs, j) {
        Some(k) => match spec_phinode(cs, k) {
            Some((b, n, e)) => if j < e <= cs.len() {
                let (rest, e2) = spec_phinodes_tail(cs, e);
                (seq![(b, n)] + rest, e2)
            } else {
                (seq![], j)
            },
            None => (seq![], j),
        },
        None => (seq![], j),
    }
}

/// Instructions separated by white space, possibly none, at `i`: their block ids and numbers,
/// and the position after them.
pub open spec fn spec_instructions(cs: Seq<char>, i: int) -> (Seq<(BlockId, usize)>, int) {
    match spec_instruction(cs, i) {
        Some((b, n, j)) => if i < j <= cs.len() {
            let (rest, e) = spec_instructions_tail(cs, j);
            (seq![(b, n)] + rest, e)
        } else {
            (seq![], i)
        },
        None => (seq![], i),
    }
}

/// The instructions after the first, each after white space, at `j`.
pub open spec fn spec_instructions_tail(cs: Seq<char>, j: int) -> (Seq<(BlockId, usize)>, int)
    decreases cs.len() - j,
{
    match spec_ws1(cs, j) {
        Some(k) => match spec_instruction(cs, k) {
            Some((b, n, e)) => if j < e <= cs.len() {
                let (rest, e2) = spec_instructions_tail(cs, e);
                (seq![(b, n)] + rest, e2)
            } else {
                (seq![], j)
            },
            None => (seq![], j),
        },
        None => (seq![], j),
    }
}

/// Whether the registers `rs` all belong to block `b` and are numbered from 0 in order.
pub open spec fn numbered_in_order(rs: Seq<(BlockId, usize)>, b: BlockId) -> bool {
    forall|m: int| 0 <= m < rs.len() ==> #[trigger] rs[m] == (b, m as usize)
}

/// A block at `i`: `block`, its id, `:`, its phi nodes, its instructions and its exit, with the
/// phi nodes and the instructions of the block numbered from 0 in order.
pub open spec fn spec_block(cs: Seq<char>, i: int) -> Option<(BlockId, int)> {
    match spec_keyword(cs, i, "block"@) {
        Some(j) => match spec_bid(cs, j) {
            Some((b, j)) => match spec_sep(cs, j, ':') {
                Some(j) => {
                    let (ps, j) = spec_phinodes(cs, j);
                    let (is, j) = spec_instructions(cs, spec_skip_ws(cs, j));
                    match spec_exit(cs, spec_skip_ws(cs, j)) {
                        Some(k) => if numbered_in_order(ps, b) && numbered_in_order(is, b) {
                            Some((b, k))
                        } else {
                            None
                        },
                        None => None,
                    }
                },
                None => None,
            },
            None => None,
        },
        None => None,
    }
}

/// A local allocation at `i`: `%l<n>:`, its type, `:` and its name.
pub open spec fn spec_allocation(cs: Seq<char>, i: int) -> Option<int> {
    match spec_lit(cs, i, "%l"@) {
        Some(j) => match spec_number(cs, j) {
            Some((_, j)) => if spec_is(cs, j, ':') {
                match spec_dtype(cs, j + 1) {
                    Some((_, j)) => if spec_is(cs, j, ':') {
                        spec_id(cs, j + 1)
                    } else {
                        None
                    },
                    None => None,
                }
            } else {
                None
            },
            None => None,
        },
        None => None,
    }
}

/// Items separated by white space, possibly none, at `i`, where an item is an allocation
/// (`blocks` false) or a block (`blocks` true): the position after them.
pub open spec fn spec_items(cs: Seq<char>, i: int, blocks: bool) -> int {
    match spec_item(cs, i, blocks) {
        Some(j) => if i < j <= cs.len() {
            spec_items_tail(cs, j, blocks)
        } else {
            i
        },
        None => i,
    }
}

/// An allocation (`blocks` false) or a block (`blocks` true) at `i`.
pub open spec fn spec_item(cs: Seq<char>, i: int, blocks: bool) -> Option<int> {
    if blocks {
        match spec_block(cs, i) {
            Some((_, j)) => Some(j),
            None => None,
        }
    } else {
        spec_allocation(cs, i)
    }
}

/// The items after the first, each after white space, at `j`.
pub open spec fn spec_items_tail(cs: Seq<char>, j: int, blocks: bool) -> int
    decreases cs.len() - j,
{
    match spec_ws1(cs, j) {
        Some(k) => match spec_item(cs, k, blocks) {
            Some(e) => if j < e <= cs.len() {
                spec_items_tail(cs, e, blocks)
            } else {
                j
            },
            None => j,
        },
        None => j,
    }
}

/// The body of a function at `i`: `init:`, `bid:` and the initial block's id, `allocations:`
/// and the allocations, then the blocks.
pub open spec fn spec_fun_body(cs: Seq<char>, i: int) -> Option<int> {
    match spec_keyword(cs, i, "init:"@) {
        Some(j) => match spec_lit(cs, j, "bid:"@) {
            Some(j) => match spec_bid(cs, spec_skip_ws(cs, j)) {
                Some((_, j)) => match spec_lit(cs, spec_skip_ws(cs, j), "allocations:"@) {
                    Some(j) => {
                        let j = spec_items(cs, spec_skip_ws(cs, j), false);
                        Some(spec_items(cs, spec_skip_ws(cs, j), true))
                    },
                    None => None,
                },
                None => None,
            },
            None => None,
        },
        None => None,
    }
}

/// Whether `c` is a hexadecimal digit.
pub open spec fn is_hex_digit_char(c: char) -> bool {
    ('0' <= c <= '9') || ('a' <= c <= 'f') || ('A' <= c <= 'F')
}

/// The number of hexadecimal digits from `i` on.
pub open spec fn hex_run(cs: Seq<char>, i: int) -> nat
    decreases cs.len() - i,
{
    if 0 <= i < cs.len() && is_hex_digit_char(cs[i]) {
        1 + hex_run(cs, i + 1)
    } else {
        0
    }
}

/// The position after a `long` suffix at `i`, if there is one.
pub open spec fn spec_integer_suffix(cs: Seq<char>, i: int) -> int {
    if spec_is(cs, i, 'l') || spec_is(cs, i, 'L') {
        i + 1
    } else {
        i
    }
}

/// An integer literal of an initializer at `i`: the position after it.
pub open spec fn spec_ast_integer(cs: Seq<char>, i: int) -> Option<int> {
    if 0 <= i < cs.len() && is_hex_digit_char(cs[i]) && cs[i] != '0' {
        Some(spec_integer_suffix(cs, i + 1 + hex_run(cs, i + 1)))
    } else if spec_is(cs, i, '0') {
        let start = if spec_is(cs, i + 1, 'x') || spec_is(cs, i + 1, 'X') {
            i + 2
        } else {
            i + 1
        };
        if hex_run(cs, start) > 0 {
            Some(spec_integer_suffix(cs, start + hex_run(cs, start)))
        } else {
            Some(spec_integer_suffix(cs, i + 1))
        }
    } else {
        None
    }
}

/// An expression of an initializer at `i`: an integer literal, or `+` or `-` applied to one in
/// parentheses.
pub open spec fn spec_ast_expression(cs: Seq<char>, i: int) -> Option<int> {
    if spec_ast_integer(cs, i) is Some {
        spec_ast_integer(cs, i)
    } else if spec_is(cs, i, '+') || spec_is(cs, i, '-') {
        match spec_sep(cs, i + 1, '(') {
            Some(j) => match spec_ast_integer(cs, j) {
                Some(j) => {
                    let k = spec_skip_ws(cs, j);
                    if spec_is(cs, k, ')') {
                        Some(k + 1)
                    } else {
                        None
                    }
                },
                None => None,
            },
            None => None,
        }
    } else {
        None
    }
}

/// An initializer at `i`: an expression, or initializers in braces separated by commas.
pub open spec fn spec_ast_initializer(cs: Seq<char>, i: int) -> Option<int>
    decreases cs.len() - i, 0nat,
{
    if spec_ast_expression(cs, i) is Some {
        spec_ast_expression(cs, i)
    } else if 0 <= i < cs.len() && cs[i] == '{' {
        let j = spec_skip_ws(cs, i + 1);
        if i < j <= cs.len() {
            let k = spec_skip_ws(cs, spec_initializer_list(cs, j));
            if spec_is(cs, k, '}') {
                Some(k + 1)
            } else {
                None
            }
        } else {
            None
        }
    } else {
        None
    }
}

/// Initializers separated by commas, possibly none, at `i`: the position after them.
pub open spec fn spec_initializer_list(cs: Seq<char>, i: int) -> int
    decreases cs.len() - i, 1nat,
{
    if !(0 <= i <= cs.len()) {
        i
    } else {
        match spec_ast_initializer(cs, i) {
            Some(j) => if i < j <= cs.len() {
                spec_initializer_list_tail(cs, j)
            } else {
                i
            },
            None => i,
        }
    }
}

/// The initializers after the first of a list, each after a comma, at `j`.
pub open spec fn spec_initializer_list_tail(cs: Seq<char>, j: int) -> int
    decreases cs.len() - j, 1nat,
{
    if !(0 <= j <= cs.len()) {
        j
    } else {
        match spec_sep(cs, j, ',') {
            Some(k) => if j < k <= cs.len() {
                match spec_ast_initializer(cs, k) {
                    Some(e) => if k < e <= cs.len() {
                        spec_initializer_list_tail(cs, e)
                    } else {
                        j
                    },
                    None => j,
                }
            } else {
                j
            },
            None => j,
        }
    }
}

/// What a program says of a name: a struct type, with its definition or only declared; a
/// variable of a type; or a function with its return and parameter types, defined or only
/// declared.
pub enum NamedForm {
    Struct { dtype: Option<SpecDtype> },
    Variable { dtype: SpecDtype },
    Function { ret: SpecDtype, params: Seq<SpecDtype>, defined: bool },
}

/// What a declaration says of its name.
pub open spec fn declaration_form(d: Declaration) -> NamedForm {
    match d {
        Declaration::Variable { dtype, .. } => NamedForm::Variable { dtype: dtype@ },
        Declaration::Function { signature, definition } => NamedForm::Function {
            ret: signature.ret@,
            params: dtypes_view(signature.params@),
            defined: definition is Some,
        },
    }
}

/// What a struct table's entry says of its name.
pub open spec fn struct_form(d: Option<Dtype>) -> NamedForm {
    NamedForm::Struct {
        dtype: match d {
            Some(d) => Some(d@),
            None => None,
        },
    }
}

/// A global declaration at `i`: its name, what it says of the name, and the position after
/// it. A function without a body is read where the body does not follow.
pub open spec fn spec_named_decl(cs: Seq<char>, i: int) -> Option<(Seq<char>, NamedForm, int)> {
    let var: Option<(Seq<char>, NamedForm, int)> = match spec_keyword(cs, i, "var"@) {
        Some(j) => match spec_dtype(cs, j) {
            Some((d, j)) => match spec_ws1(cs, j) {
                Some(j) => match spec_global_variable(cs, j) {
                    Some(g) => match spec_sep(cs, g, '=') {
                        Some(k) => if spec_lit(cs, k, "default"@) is Some {
                            Some((cs.subrange(j + 1, g), NamedForm::Variable { dtype: d }, spec_lit(cs, k, "default"@)->0))
                        } else if spec_ast_initializer(cs, k) is Some {
                            Some((cs.subrange(j + 1, g), NamedForm::Variable { dtype: d }, spec_ast_initializer(cs, k)->0))
                        } else {
                            None
                        },
                        None => None,
                    },
                    None => None,
                },
                None => None,
            },
            None => None,
        },
        None => None,
    };
    let fun: Option<(Seq<char>, NamedForm, int)> = match spec_keyword(cs, i, "fun"@) {
        Some(j) => match spec_dtype(cs, j) {
            Some((ret, j)) => match spec_ws1(cs, j) {
                Some(j) => match spec_global_variable(cs, j) {
                    Some(g) => {
                        let p = spec_skip_ws(cs, g);
                        if spec_is(cs, p, '(') {
                            let (params, q) = spec_dtype_list(cs, p + 1);
                            let q = spec_skip_ws(cs, q);
                            if spec_is(cs, q, ')') {
                                let after = q + 1;
                                let with_body: Option<int> = match spec_sep(cs, after, '{') {
                                    Some(k) => match spec_fun_body(cs, k) {
                                        Some(k) => if spec_is(cs, spec_skip_ws(cs, k), '}') {
                                            Some(spec_skip_ws(cs, k) + 1)
                                        } else {
                                            None
                                        },
                                        None => None,
                                    },
                                    None => None,
                                };
                                let form = NamedForm::Function { ret, params, defined: with_body is Some };
                                if with_body is Some {
                                    Some((cs.subrange(j + 1, g), form, with_body->0))
                                } else {
                                    Some((cs.subrange(j + 1, g), form, after))
                                }
                            } else {
                                None
                            }
                        } else {
                            None
                        }
                    },
                    None => None,
                },
                None => None,
            },
            None => None,
        },
        None => None,
    };
    if var is Some {
        var
    } else {
        fun
    }
}

/// A field of a struct type at `i`: `%anon` or a name, `:` and its type; the field's name
/// (none for `%anon`) and type, and the position after it.
pub open spec fn spec_struct_field(cs: Seq<char>, i: int) -> Option<((Option<Seq<char>>, SpecDtype), int)> {
    let named: Option<(Option<Seq<char>>, int)> = if spec_lit(cs, i, "%anon"@) is Some {
        Some((None, spec_lit(cs, i, "%anon"@)->0))
    } else {
        match spec_id(cs, i) {
            Some(j) => Some((Some(cs.subrange(i, j)), j)),
            None => None,
        }
    };
    match named {
        Some((name, j)) => match spec_sep(cs, j, ':') {
            Some(j) => match spec_dtype(cs, j) {
                Some((d, k)) => Some(((name, d), k)),
                None => None,
            },
            None => None,
        },
        None => None,
    }
}

/// Struct fields separated by commas, possibly none, at `i`: the fields and the position after
/// them.
pub open spec fn spec_struct_fields(cs: Seq<char>, i: int) -> (Seq<(Option<Seq<char>>, SpecDtype)>, int) {
    match spec_struct_field(cs, i) {
        Some((f, j)) => if i < j <= cs.len() {
            let (rest, e) = spec_struct_fields_tail(cs, j);
            (seq![f] + rest, e)
        } else {
            (seq![], i)
        },
        None => (seq![], i),
    }
}

/// The struct fields after the first, each after a comma, at `j`.
pub open spec fn spec_struct_fields_tail(cs: Seq<char>, j: int) -> (Seq<(Option<Seq<char>>, SpecDtype)>, int)
    decreases cs.len() - j,
{
    match spec_sep(cs, j, ',') {
        Some(k) => match spec_struct_field(cs, k) {
            Some((f, e)) => if j < e <= cs.len() {
                let (rest, e2) = spec_struct_fields_tail(cs, e);
                (seq![f] + rest, e2)
            } else {
                (seq![], j)
            },
            None => (seq![], j),
        },
        None => (seq![], j),
    }
}

/// A struct type at `i`: `struct`, its name, `:` and `opaque` or its fields in braces; its
/// name, whether it is defined, and the position after it.
pub open spec fn spec_named_struct(cs: Seq<char>, i: int) -> Option<(Seq<char>, NamedForm, int)> {
    match spec_keyword(cs, i, "struct"@) {
        Some(j) => match spec_id(cs, j) {
            Some(n) => match spec_sep(cs, n, ':') {
                Some(k) => if spec_lit(cs, k, "opaque"@) is Some {
                    Some((cs.subrange(j, n), NamedForm::Struct { dtype: None }, spec_lit(cs, k, "opaque"@)->0))
                } else if spec_is(cs, k, '{') {
                    let (fields, e) = spec_struct_fields(cs, spec_skip_ws(cs, k + 1));
                    let e = spec_skip_ws(cs, e);
                    if spec_is(cs, e, '}') {
                        let d = SpecDtype::Struct {
                            name: Some(cs.subrange(j, n)),
                            fields: Some(fields),
                            is_const: false,
                            size_align_offsets: None,
                        };
                        Some((cs.subrange(j, n), NamedForm::Struct { dtype: Some(d) }, e + 1))
                    } else {
                        None
                    }
                } else {
                    None
                },
                None => None,
            },
            None => None,
        },
        None => None,
    }
}

/// A struct type (`decls` false) or a global declaration (`decls` true) at `i`: its name, what
/// it says of the name, and the position after it.
pub open spec fn spec_named(cs: Seq<char>, i: int, decls: bool) -> Option<(Seq<char>, NamedForm, int)> {
    if decls {
        spec_named_decl(cs, i)
    } else {
        spec_named_struct(cs, i)
    }
}

/// Struct types or global declarations separated by white space, possibly none, at `i`: their
/// names with what each says of its name, and the position after them.
pub open spec fn spec_named_list(cs: Seq<char>, i: int, decls: bool) -> (Seq<(Seq<char>, NamedForm)>, int) {
    match spec_named(cs, i, decls) {
        Some((name, f, j)) => if i < j <= cs.len() {
            let (rest, e) = spec_named_list_tail(cs, j, decls);
            (seq![(name, f)] + rest, e)
        } else {
            (seq![], i)
        },
        None => (seq![], i),
    }
}

/// The struct types or declarations after the first, each after white space, at `j`.
pub open spec fn spec_named_list_tail(cs: Seq<char>, j: int, decls: bool) -> (Seq<(Seq<char>, NamedForm)>, int)
    decreases cs.len() - j,
{
    match spec_ws1(cs, j) {
        Some(k) => match spec_named(cs, k, decls) {
            Some((name, f, e)) => if j < e <= cs.len() {
                let (rest, e2) = spec_named_list_tail(cs, e, decls);
                (seq![(name, f)] + rest, e2)
            } else {
                (seq![], j)
            },
            None => (seq![], j),
        },
        None => (seq![], j),
    }
}

/// Whether no name occurs twice among `entries`.
pub open spec fn names_distinct(entries: Seq<(Seq<char>, NamedForm)>) -> bool {
    forall|a: int, b: int| 0 <= a < b < entries.len() ==> entries[a].0 != entries[b].0
}

/// The grammar of a program: its struct types and its global declarations, each name with what
/// the program says of it, in the order they are written, where `text` is a program. It is one
/// where no character is `.`, where white space, the struct types, then the declarations, each
/// separated by white space, and white space make up the whole text, and where no name is
/// declared twice among the struct types or among the declarations.
pub open spec fn spec_parse_unit(text: Seq<char>) -> Option<(Seq<(Seq<char>, NamedForm)>, Seq<(Seq<char>, NamedForm)>)> {
    let (structs, j) = spec_named_list(text, spec_skip_ws(text, 0), false);
    let (decls, k) = spec_named_list(text, spec_skip_ws(text, j), true);
    if !text.contains('.') && spec_skip_ws(text, k) == text.len() && names_distinct(structs) && names_distinct(
        decls,
    ) {
        Some((structs, decls))
    } else {
        None
    }
}

/// The names of a struct table with what its entries say of them, in order.
pub open spec fn struct_entries(m: StringMap<Option<Dtype>>) -> Seq<(Seq<char>, NamedForm)> {
    m.spec_entries().map_values(|e: (String, Option<Dtype>)| (e.0@, struct_form(e.1)))
}

/// The names of a declaration table with what its entries say of them, in order.
pub open spec fn decl_entries(m: StringMap<Declaration>) -> Seq<(Seq<char>, NamedForm)> {
    m.spec_entries().map_values(|e: (String, Declaration)| (e.0@, declaration_form(e.1)))
}

/// A keyword followed by at least one white space character.
fn keyword(cs: &Vec<char>, i: usize, s: &str) -> (r: Option<usize>)
    requires
        i <= cs@.len(),
    ensures
        match r {
            Some(j) => spec_keyword(cs@, i as int, s@) == Some(j as int),
            None => spec_keyword(cs@, i as int, s@) is None,
        },
        r matches Some(j) ==> i < j <= cs@.len(),
{
    match lit(cs, i, s) {
        Some(j) => ws1(cs, j),
        None => None,
    }
}

/// A constant as written before its type: a decimal number, possibly negated, `undef`, `unit`
/// or a global variable. Its type is not known yet: numbers are read as signed 128-bit
/// integers, `undef` and global variables with the unit type.
fn constant(text: &str, cs: &Vec<char>, i: usize) -> (r: Option<(Constant, usize)>)
    requires
        cs@ == text@,
        i <= cs@.len(),
    ensures
        match r {
            Some((c, j)) => spec_constant(cs@, i as int) == Some((constant_form(c), j as int)) && !(c is Float) && (
            c is Int ==> c matches Constant::Int { width: 128, is_signed: true, .. }),
            None => spec_constant(cs@, i as int) is None,
        },
        r matches Some((_, j)) ==> i < j <= cs@.len(),
{
    if let Some((n, j)) = number(cs, i) {
        return Some((Constant::Int { value: n as u128, width: 128, is_signed: true }, j));
    }
    if is_char(cs, i, '-') {
        if let Some((n, j)) = number(cs, i + 1) {
            let c = Constant::Int { value: n as u128, width: 128, is_signed: true };
            proof {
                vstd::arithmetic::power2::lemma2_to64();
                vstd::arithmetic::power2::lemma_pow2_strictly_increases(64, 127);
            }
            assert(super::signed_value(n as u128) == n);
            return Some((c.minus(), j));
        }
    }
    if let Some(j) = lit(cs, i, "undef") {
        return Some((Constant::Undef { dtype: Dtype::unit() }, j));
    }
    if let Some(j) = lit(cs, i, "unit") {
        return Some((Constant::Unit, j));
    }
    if let Some((name, j)) = global_variable(text, cs, i) {
        return Some((Constant::GlobalVariable { name, dtype: Dtype::unit() }, j));
    }
    None
}

/// A constant given the type written after it: an integer takes the width and signedness of
/// an integer type, `undef` takes the type, and a global variable takes the type that the
/// pointer type points to (`None` when the type is not a pointer type); any other constant
/// stays as it is.
pub fn constant_with_dtype(c: Constant, d: Dtype) -> (r: Option<Constant>)
    ensures
        match (c, d) {
            (Constant::Int { value, .. }, Dtype::Int { width, is_signed, .. }) => r == Some(
                Constant::Int { value, width, is_signed },
            ),
            (Constant::Undef { .. }, _) => r == Some(Constant::Undef { dtype: d }),
            (Constant::GlobalVariable { name, .. }, Dtype::Pointer { inner, .. }) => r == Some(
                Constant::GlobalVariable { name, dtype: *inner },
            ),
            (Constant::GlobalVariable { .. }, _) => r is None,
            _ => r == Some(c),
        },
{
    match c {
        Constant::Int { value, width, is_signed } => match d {
            Dtype::Int { width: w, is_signed: s, .. } => Some(Constant::Int { value, width: w, is_signed: s }),
            _ => Some(Constant::Int { value, width, is_signed }),
        },
        Constant::Undef { .. } => Some(Constant::Undef { dtype: d }),
        Constant::GlobalVariable { name, .. } => match d {
            Dtype::Pointer { inner, .. } => Some(Constant::GlobalVariable { name, dtype: *inner }),
            _ => None,
        },
        other => Some(other),
    }
}

/// A register: `%l<n>`, `%b<n>:p<n>` or `%b<n>:i<n>`.
fn register_id(cs: &Vec<char>, i: usize) -> (r: Option<(RegisterId, usize)>)
    requires
        i <= cs@.len(),
    ensures
        match r {
            Some((_, j)) => spec_register_id(cs@, i as int) == Some(j as int),
            None => spec_register_id(cs@, i as int) is None,
        },
        r matches Some((_, j)) ==> i < j <= cs@.len(),
{
    if let Some(j) = lit(cs, i, "%l") {
        if let Some((n, k)) = number(cs, j) {
            return Some((RegisterId::Local { aid: n }, k));
        }
    }
    if is_char(cs, i, '%') {
        if let Some((b, j)) = bid(cs, i + 1) {
            if let Some(k) = lit(cs, j, ":p") {
                if let Some((n, e)) = number(cs, k) {
                    return Some((RegisterId::Arg { bid: b, aid: n }, e));
                }
            }
            if let Some(k) = lit(cs, j, ":i") {
                if let Some((n, e)) = number(cs, k) {
                    return Some((RegisterId::Temp { bid: b, iid: n }, e));
                }
            }
        }
    }
    None
}

/// An operand: a constant or a register, then `:` and its type.
#[verifier::spinoff_prover]
fn operand(text: &str, cs: &Vec<char>, i: usize) -> (r: Option<(Operand, usize)>)
    requires
        cs@ == text@,
        i <= cs@.len(),
    ensures
        match r {
            Some((o, j)) => spec_operand(cs@, i as int) == Some((operand_dtype(o), o is Constant, j as int)),
            None => spec_operand(cs@, i as int) is None,
        },
        r matches Some((_, j)) ==> i < j <= cs@.len(),
{
    if let Some((c, j)) = constant(text, cs, i) {
        if is_char(cs, j, ':') {
            if let Some((d, k)) = dtype(text, cs, j + 1) {
                if let Some(c) = constant_with_dtype(c, d) {
                    return Some((Operand::Constant(c), k));
                }
            }
        }
    }
    if let Some((rid, j)) = register_id(cs, i) {
        if is_char(cs, j, ':') {
            if let Some((d, k)) = dtype(text, cs, j + 1) {
                return Some((Operand::Register { rid, dtype: d }, k));
            }
        }
    }
    None
}

/// Operands separated by commas with white space around them, possibly none.
#[verifier::loop_isolation(false)]
fn operand_list(text: &str, cs: &Vec<char>, i: usize) -> (r: (Vec<Operand>, usize))
    requires
        cs@ == text@,
        i <= cs@.len(),
    ensures
        r.1 == spec_operand_list(cs@, i as int),
        i <= r.1 <= cs@.len(),
{
    let mut out: Vec<Operand> = Vec::new();
    let mut j = match operand(text, cs, i) {
        Some((o, e)) => {
            out.push(o);
            e
        },
        None => {
            return (out, i);
        },
    };
    loop
        invariant
            i < j <= cs@.len(),
            spec_operand_list(cs@, i as int) == spec_operand_list_tail(cs@, j as int),
        decreases cs@.len() - j,
    {
        let k = match sep(cs, j, ',') {
            Some(k) => k,
            None => {
                return (out, j);
            },
        };
        match operand(text, cs, k) {
            Some((o, e)) => {
                out.push(o);
                j = e;
            },
            None => {
                return (out, j);
            },
        }
    }
}

/// A jump: a block id and its arguments in parentheses.
fn jump_arg(text: &str, cs: &Vec<char>, i: usize) -> (r: Option<(JumpArg, usize)>)
    requires
        cs@ == text@,
        i <= cs@.len(),
    ensures
        match r {
            Some((_, j)) => spec_jump_arg(cs@, i as int) == Some(j as int),
            None => spec_jump_arg(cs@, i as int) is None,
        },
        r matches Some((_, j)) ==> i < j <= cs@.len(),
{
    let (b, j) = match bid(cs, i) {
        Some(x) => x,
        None => {
            return None;
        },
    };
    let j = match sep(cs, j, '(') {
        Some(j) => j,
        None => {
            return None;
        },
    };
    let (args, j) = operand_list(text, cs, j);
    let j = skip_ws(cs, j);
    if is_char(cs, j, ')') {
        Some((JumpArg { bid: b, args }, j + 1))
    } else {
        None
    }
}

/// The name of a unary operation: `plus`, `minus` or `negate`.
fn unary_op(cs: &Vec<char>, i: usize) -> (r: Option<(UnaryOperator, usize)>)
    requires
        i <= cs@.len(),
    ensures
        match r {
            Some((_, j)) => spec_first_lit(cs@, i as int, unary_names()) == Some(j as int),
            None => spec_first_lit(cs@, i as int, unary_names()) is None,
        },
        r matches Some((_, j)) ==> i < j <= cs@.len(),
{
    proof {
        reveal_with_fuel(spec_first_lit, 11);
    }
    if let Some(j) = lit(cs, i, "plus") {
        return Some((UnaryOperator::Plus, j));
    }
    if let Some(j) = lit(cs, i, "minus") {
        return Some((UnaryOperator::Minus, j));
    }
    if let Some(j) = lit(cs, i, "negate") {
        return Some((UnaryOperator::Negate, j));
    }
    None
}

/// The name of an arithmetic, shift or bitwise operation, whose result has the type of its
/// operands.
fn binary_op(cs: &Vec<char>, i: usize) -> (r: Option<(BinaryOperator, usize)>)
    requires
        i <= cs@.len(),
    ensures
        match r {
            Some((_, j)) => spec_first_lit(cs@, i as int, binary_names()) == Some(j as int),
            None => spec_first_lit(cs@, i as int, binary_names()) is None,
        },
        r matches Some((_, j)) ==> i < j <= cs@.len(),
{
    proof {
        reveal_with_fuel(spec_first_lit, 11);
    }
    if let Some(j) = lit(cs, i, "add") {
        return Some((BinaryOperator::Plus, j));
    }
    if let Some(j) = lit(cs, i, "sub") {
        return Some((BinaryOperator::Minus, j));
    }
    if let Some(j) = lit(cs, i, "mul") {
        return Some((BinaryOperator::Multiply, j));
    }
    if let Some(j) = lit(cs, i, "div") {
        return Some((BinaryOperator::Divide, j));
    }
    if let Some(j) = lit(cs, i, "mod") {
        return Some((BinaryOperator::Modulo, j));
    }
    if let Some(j) = lit(cs, i, "shl") {
        return Some((BinaryOperator::ShiftLeft, j));
    }
    if let Some(j) = lit(cs, i, "shr") {
        return Some((BinaryOperator::ShiftRight, j));
    }
    if let Some(j) = lit(cs, i, "and") {
        return Some((BinaryOperator::BitwiseAnd, j));
    }
    if let Some(j) = lit(cs, i, "xor") {
        return Some((BinaryOperator::BitwiseXor, j));
    }
    if let Some(j) = lit(cs, i, "or") {
        return Some((BinaryOperator::BitwiseOr, j));
    }
    None
}

/// The name of a comparison: `eq`, `ne`, `lt`, `le`, `gt` or `ge`.
fn relation_op(cs: &Vec<char>, i: usize) -> (r: Option<(BinaryOperator, usize)>)
    requires
        i <= cs@.len(),
    ensures
        match r {
            Some((_, j)) => spec_first_lit(cs@, i as int, relation_names()) == Some(j as int),
            None => spec_first_lit(cs@, i as int, relation_names()) is None,
        },
        r matches Some((_, j)) ==> i < j <= cs@.len(),
{
    proof {
        reveal_with_fuel(spec_first_lit, 11);
    }
    if let Some(j) = lit(cs, i, "eq") {
        return Some((BinaryOperator::Equals, j));
    }
    if let Some(j) = lit(cs, i, "ne") {
        return Some((BinaryOperator::NotEquals, j));
    }
    if let Some(j) = lit(cs, i, "lt") {
        return Some((BinaryOperator::Less, j));
    }
    if let Some(j) = lit(cs, i, "le") {
        return Some((BinaryOperator::LessOrEqual, j));
    }
    if let Some(j) = lit(cs, i, "gt") {
        return Some((BinaryOperator::Greater, j));
    }
    if let Some(j) = lit(cs, i, "ge") {
        return Some((BinaryOperator::GreaterOrEqual, j));
    }
    None
}

/// Two operands separated by white space.
fn operand_pair(text: &str, cs: &Vec<char>, i: usize) -> (r: Option<(Operand, Operand, usize)>)
    requires
        cs@ == text@,
        i <= cs@.len(),
    ensures
        match r {
            Some((a, b, j)) => spec_operand_pair(cs@, i as int) == Some((operand_dtype(a), operand_dtype(b), j as int)),
            None => spec_operand_pair(cs@, i as int) is None,
        },
        r matches Some((_, _, j)) ==> i < j <= cs@.len(),
{
    if let Some((a, j)) = operand(text, cs, i) {
        if let Some(j) = ws1(cs, j) {
            if let Some((b, k)) = operand(text, cs, j) {
                return Some((a, b, k));
            }
        }
    }
    None
}

/// The return type of the function type that a pointer type points to, if it is one.
fn pointed_function_return(d: Dtype) -> (r: Option<Dtype>)
    ensures
        r is Some <==> (d@ matches SpecDtype::Pointer { inner, .. } && *inner is Function),
{
    proof {
        reveal_with_fuel(Dtype::spec_view, 2);
    }
    match d {
        Dtype::Pointer { inner, .. } => match *inner {
            Dtype::Function { ret, .. } => Some(*ret),
            _ => None,
        },
        _ => None,
    }
}

/// A call: `call`, the callee and the arguments in parentheses. The callee's type must be a
/// pointer to a function type, whose return type the call has.
#[verifier::spinoff_prover]
fn call_instruction(text: &str, cs: &Vec<char>, i: usize) -> (r: Option<(Instruction, usize)>)
    requires
        cs@ == text@,
        i <= cs@.len(),
    ensures
        match r {
            Some((_, j)) => spec_call(cs@, i as int) == Some(j as int),
            None => spec_call(cs@, i as int) is None,
        },
        r matches Some((_, j)) ==> i < j <= cs@.len(),
{
    let j = match keyword(cs, i, "call") {
        Some(j) => j,
        None => {
            return None;
        },
    };
    let (callee, j) = match operand(text, cs, j) {
        Some(x) => x,
        None => {
            return None;
        },
    };
    let j = match sep(cs, j, '(') {
        Some(j) => j,
        None => {
            return None;
        },
    };
    let (args, j) = operand_list(text, cs, j);
    let j = skip_ws(cs, j);
    if !is_char(cs, j, ')') {
        return None;
    }
    let return_type = match pointed_function_return(callee.dtype()) {
        Some(t) => t,
        None => {
            return None;
        },
    };
    Some((Instruction::Call { callee, args, return_type }, j + 1))
}

/// The instruction of an operation on operands: a unary operation, an arithmetic, shift or
/// bitwise operation on operands of one type, or a comparison of operands of one type.
#[verifier::spinoff_prover]
fn operation_instruction(text: &str, cs: &Vec<char>, i: usize) -> (r: Option<(Instruction, usize)>)
    requires
        cs@ == text@,
        i <= cs@.len(),
    ensures
        match r {
            Some((_, j)) => spec_operation(cs@, i as int) == Some(j as int),
            None => spec_operation(cs@, i as int) is None,
        },
        r matches Some((_, j)) ==> i < j <= cs@.len(),
{
    if let Some((op, j)) = unary_op(cs, i) {
        if let Some(j) = ws1(cs, j) {
            if let Some((operand, k)) = operand(text, cs, j) {
                let dtype = operand.dtype();
                return Some((Instruction::UnaryOp { op, operand, dtype }, k));
            }
        }
    }
    if let Some((op, j)) = binary_op(cs, i) {
        if let Some(j) = ws1(cs, j) {
            if let Some((lhs, rhs, k)) = operand_pair(text, cs, j) {
                let dtype = lhs.dtype();
                if dtype.equals(&rhs.dtype()) {
                    return Some((Instruction::BinOp { op, lhs, rhs, dtype }, k));
                }
                return None;
            }
        }
    }
    if let Some(j) = keyword(cs, i, "cmp") {
        if let Some((op, j)) = relation_op(cs, j) {
            if let Some(j) = ws1(cs, j) {
                if let Some((lhs, rhs, k)) = operand_pair(text, cs, j) {
                    if lhs.dtype().equals(&rhs.dtype()) {
                        return Some((Instruction::BinOp { op, lhs, rhs, dtype: Dtype::bool_type() }, k));
                    }
                    return None;
                }
            }
        }
    }
    None
}

/// What an instruction computes (`instruction_inner`).
#[verifier::spinoff_prover]
fn instruction_inner(text: &str, cs: &Vec<char>, i: usize) -> (r: Option<(Instruction, usize)>)
    requires
        cs@ == text@,
        i <= cs@.len(),
    ensures
        match r {
            Some((_, j)) => spec_instruction_inner(cs@, i as int) == Some(j as int),
            None => spec_instruction_inner(cs@, i as int) is None,
        },
        r matches Some((_, j)) ==> i < j <= cs@.len(),
{
    if let Some(j) = lit(cs, i, "nop") {
        return Some((Instruction::Nop, j));
    }
    if let Some(j) = keyword(cs, i, "load") {
        if let Some((ptr, k)) = operand(text, cs, j) {
            return Some((Instruction::Load { ptr }, k));
        }
    }
    if let Some(j) = keyword(cs, i, "store") {
        if let Some((value, ptr, k)) = operand_pair(text, cs, j) {
            return Some((Instruction::Store { ptr, value }, k));
        }
    }
    if let Some(x) = call_instruction(text, cs, i) {
        return Some(x);
    }
    if let Some(j) = keyword(cs, i, "typecast") {
        if let Some((value, j)) = operand(text, cs, j) {
            if let Some(j) = ws1(cs, j) {
                if let Some(j) = keyword(cs, j, "to") {
                    if let Some((target_dtype, k)) = dtype(text, cs, j) {
                        return Some((Instruction::TypeCast { value, target_dtype }, k));
                    }
                }
            }
        }
    }
    if let Some(x) = operation_instruction(text, cs, i) {
        return Some(x);
    }
    if let Some(j) = keyword(cs, i, "getelementptr") {
        if let Some((ptr, j)) = operand(text, cs, j) {
            if let Some(j) = ws1(cs, j) {
                if let Some(j) = keyword(cs, j, "offset") {
                    if let Some((offset, k)) = operand(text, cs, j) {
                        return Some((Instruction::GetElementPtr { ptr, offset, dtype: Box::new(Dtype::unit()) }, k));
                    }
                }
            }
        }
    }
    None
}

/// An optional name: `:` and a name, or nothing.
fn optional_name(text: &str, cs: &Vec<char>, i: usize) -> (r: (Option<String>, usize))
    requires
        cs@ == text@,
        i <= cs@.len(),
    ensures
        r.1 == spec_optional_name(cs@, i as int),
        i <= r.1 <= cs@.len(),
{
    if is_char(cs, i, ':') {
        if let Some((name, j)) = id(text, cs, i + 1) {
            return (Some(name), j);
        }
    }
    (None, i)
}

/// A register's block id, `:`, a letter and its number: `%b<n>:p<n>` or `%b<n>:i<n>`.
fn register_head(cs: &Vec<char>, i: usize, tag: &str) -> (r: Option<(BlockId, usize, usize)>)
    requires
        i <= cs@.len(),
    ensures
        match r {
            Some((b, n, j)) => spec_register_head(cs@, i as int, tag@) == Some((b, n, j as int)),
            None => spec_register_head(cs@, i as int, tag@) is None,
        },
        r matches Some((_, _, j)) ==> i < j <= cs@.len(),
{
    if is_char(cs, i, '%') {
        if let Some((b, j)) = bid(cs, i + 1) {
            if let Some(j) = lit(cs, j, tag) {
                if let Some((n, k)) = number(cs, j) {
                    return Some((b, n, k));
                }
            }
        }
    }
    None
}

/// A phi node: its register, `:`, its type and maybe a name.
fn phinode(text: &str, cs: &Vec<char>, i: usize) -> (r: Option<(BlockId, usize, Named<Dtype>, usize)>)
    requires
        cs@ == text@,
        i <= cs@.len(),
    ensures
        match r {
            Some((b, n, _, j)) => spec_phinode(cs@, i as int) == Some((b, n, j as int)),
            None => spec_phinode(cs@, i as int) is None,
        },
        r matches Some((_, _, _, j)) ==> i < j <= cs@.len(),
{
    if let Some((b, n, j)) = register_head(cs, i, ":p") {
        if is_char(cs, j, ':') {
            if let Some((d, j)) = dtype(text, cs, j + 1) {
                let (name, j) = optional_name(text, cs, j);
                return Some((b, n, Named { name, inner: d }, j));
            }
        }
    }
    None
}

/// An instruction: its register, `:`, its type, maybe a name, `=` and what it computes. The
/// type of an address computation is the type written for it.
fn instruction(text: &str, cs: &Vec<char>, i: usize) -> (r: Option<(BlockId, usize, Named<Instruction>, usize)>)
    requires
        cs@ == text@,
        i <= cs@.len(),
    ensures
        match r {
            Some((b, n, _, j)) => spec_instruction(cs@, i as int) == Some((b, n, j as int)),
            None => spec_instruction(cs@, i as int) is None,
        },
        r matches Some((_, _, _, j)) ==> i < j <= cs@.len(),
{
    if let Some((b, n, j)) = register_head(cs, i, ":i") {
        if is_char(cs, j, ':') {
            if let Some((d, j)) = dtype(text, cs, j + 1) {
                let (name, j) = optional_name(text, cs, j);
                if let Some(j) = sep(cs, j, '=') {
                    if let Some((ins, k)) = instruction_inner(text, cs, j) {
                        let ins = match ins {
                            Instruction::GetElementPtr { ptr, offset, .. } => Instruction::GetElementPtr {
                                ptr,
                                offset,
                                dtype: Box::new(d),
                            },
                            other => other,
                        };
                        return Some((b, n, Named { name, inner: ins }, k));
                    }
                }
            }
        }
    }
    None
}

/// A switch case: an operand, which must be a constant, and a jump.
fn switch_case(text: &str, cs: &Vec<char>, i: usize) -> (r: Option<(Constant, JumpArg, usize)>)
    requires
        cs@ == text@,
        i <= cs@.len(),
    ensures
        match r {
            Some((_, _, j)) => spec_switch_case(cs@, i as int) == Some(j as int),
            None => spec_switch_case(cs@, i as int) is None,
        },
        r matches Some((_, _, j)) ==> i < j <= cs@.len(),
{
    if let Some((o, j)) = operand(text, cs, i) {
        if let Some(j) = ws1(cs, j) {
            if let Some((arg, k)) = jump_arg(text, cs, j) {
                return match o {
                    Operand::Constant(c) => Some((c, arg, k)),
                    _ => None,
                };
            }
        }
    }
    None
}

/// Switch cases separated by white space, possibly none.
#[verifier::loop_isolation(false)]
fn switch_cases(text: &str, cs: &Vec<char>, i: usize) -> (r: (Vec<(Constant, JumpArg)>, usize))
    requires
        cs@ == text@,
        i <= cs@.len(),
    ensures
        r.1 == spec_switch_cases(cs@, i as int),
        i <= r.1 <= cs@.len(),
{
    let mut out: Vec<(Constant, JumpArg)> = Vec::new();
    let mut j = match switch_case(text, cs, i) {
        Some((c, a, e)) => {
            out.push((c, a));
            e
        },
        None => {
            return (out, i);
        },
    };
    loop
        invariant
            i < j <= cs@.len(),
            spec_switch_cases(cs@, i as int) == spec_switch_cases_tail(cs@, j as int),
        decreases cs@.len() - j,
    {
        let k = match ws1(cs, j) {
            Some(k) => k,
            None => {
                return (out, j);
            },
        };
        match switch_case(text, cs, k) {
            Some((c, a, e)) => {
                out.push((c, a));
                j = e;
            },
            None => {
                return (out, j);
            },
        }
    }
}

/// How a block ends: `j`, `br`, `switch`, `ret` or `unreachable`.
#[verifier::spinoff_prover]
fn exit(text: &str, cs: &Vec<char>, i: usize) -> (r: Option<(BlockExit, usize)>)
    requires
        cs@ == text@,
        i <= cs@.len(),
    ensures
        match r {
            Some((_, j)) => spec_exit(cs@, i as int) == Some(j as int),
            None => spec_exit(cs@, i as int) is None,
        },
        r matches Some((_, j)) ==> i < j <= cs@.len(),
{
    if let Some(j) = keyword(cs, i, "j") {
        if let Some((arg, k)) = jump_arg(text, cs, j) {
            return Some((BlockExit::Jump { arg }, k));
        }
    }
    if let Some(j) = keyword(cs, i, "br") {
        if let Some((condition, j)) = operand(text, cs, j) {
            if let Some(j) = sep(cs, j, ',') {
                if let Some((arg_then, j)) = jump_arg(text, cs, j) {
                    if let Some(j) = sep(cs, j, ',') {
                        if let Some((arg_else, k)) = jump_arg(text, cs, j) {
                            return Some((BlockExit::ConditionalJump {
                                condition,
                                arg_then: Box::new(arg_then),
                                arg_else: Box::new(arg_else),
                            }, k));
                        }
                    }
                }
            }
        }
    }
    if let Some(j) = keyword(cs, i, "switch") {
        if let Some((value, j)) = operand(text, cs, j) {
            if let Some(j) = ws1(cs, j) {
                if let Some(j) = keyword(cs, j, "default") {
                    if let Some((default, j)) = jump_arg(text, cs, j) {
                        if let Some(j) = sep(cs, j, '[') {
                            let (cases, j) = switch_cases(text, cs, j);
                            let j = skip_ws(cs, j);
                            if is_char(cs, j, ']') {
                                return Some((BlockExit::Switch { value, default: Box::new(default), cases }, j + 1));
                            }
                        }
                    }
                }
            }
        }
    }
    if let Some(j) = keyword(cs, i, "ret") {
        if let Some((value, k)) = operand(text, cs, j) {
            return Some((BlockExit::Return { value }, k));
        }
    }
    if let Some(j) = lit(cs, i, "unreachable") {
        return Some((BlockExit::Unreachable, j));
    }
    None
}

/// A local allocation: `%l<n>:`, its type, `:` and its name.
fn allocation(text: &str, cs: &Vec<char>, i: usize) -> (r: Option<(Named<Dtype>, usize)>)
    requires
        cs@ == text@,
        i <= cs@.len(),
    ensures
        match r {
            Some((_, j)) => spec_allocation(cs@, i as int) == Some(j as int),
            None => spec_allocation(cs@, i as int) is None,
        },
        r matches Some((_, j)) ==> i < j <= cs@.len(),
{
    if let Some(j) = lit(cs, i, "%l") {
        if let Some((_, j)) = number(cs, j) {
            if is_char(cs, j, ':') {
                if let Some((d, j)) = dtype(text, cs, j + 1) {
                    if is_char(cs, j, ':') {
                        if let Some((name, k)) = id(text, cs, j + 1) {
                            return Some((Named { name: Some(name), inner: d }, k));
                        }
                    }
                }
            }
        }
    }
    None
}

/// A block: `block`, its id, `:`, its phi nodes, its instructions and its exit. The phi nodes
/// and the instructions must carry the block's id and be numbered from 0 in order.
#[verifier::loop_isolation(false)]
#[verifier::spinoff_prover]
fn block(text: &str, cs: &Vec<char>, i: usize) -> (r: Option<(BlockId, Block, usize)>)
    requires
        cs@ == text@,
        i <= cs@.len(),
    ensures
        match r {
            Some((b, _, j)) => spec_block(cs@, i as int) == Some((b, j as int)),
            None => spec_block(cs@, i as int) is None,
        },
        r matches Some((_, _, j)) ==> i < j <= cs@.len(),
{
    let j = match keyword(cs, i, "block") {
        Some(j) => j,
        None => {
            return None;
        },
    };
    let (b, j) = match bid(cs, j) {
        Some(x) => x,
        None => {
            return None;
        },
    };
    let j = match sep(cs, j, ':') {
        Some(j) => j,
        None => {
            return None;
        },
    };
    let (phinodes, j, ok) = phinode_list(text, cs, j, b);
    let (instructions, j, ok2) = instruction_list(text, cs, skip_ws(cs, j), b);
    let j = skip_ws(cs, j);
    let (exit, k) = match exit(text, cs, j) {
        Some(x) => x,
        None => {
            return None;
        },
    };
    if !(ok && ok2) {
        return None;
    }
    Some((b, Block { phinodes, instructions, exit }, k))
}

/// Phi nodes separated by white space, possibly none, and whether they belong to block `b` and
/// are numbered from 0 in order.
#[verifier::loop_isolation(false)]
fn phinode_list(text: &str, cs: &Vec<char>, i: usize, b: BlockId) -> (r: (Vec<Named<Dtype>>, usize, bool))
    requires
        cs@ == text@,
        i <= cs@.len(),
    ensures
        r.1 == spec_phinodes(cs@, i as int).1,
        r.2 == numbered_in_order(spec_phinodes(cs@, i as int).0, b),
        i <= r.1 <= cs@.len(),
{
    let mut out: Vec<Named<Dtype>> = Vec::new();
    let (b2, n, p, e) = match phinode(text, cs, i) {
        Some(x) => x,
        None => {
            assert(numbered_in_order(seq![], b));
            return (out, i, true);
        },
    };
    let mut ok = b2 == b && n == 0;
    out.push(p);
    let ghost mut ps: Seq<(BlockId, usize)> = seq![(b2, n)];
    assert(ok == numbered_in_order(ps, b)) by {
        if ok {
            assert forall|m: int| 0 <= m < ps.len() implies #[trigger] ps[m] == (b, m as usize) by {}
        } else {
            assert(ps[0] != (b, 0usize));
        }
    }
    let mut j = e;
    loop
        invariant
            i < j <= cs@.len(),
            out@.len() == ps.len(),
            ok == numbered_in_order(ps, b),
            spec_phinodes(cs@, i as int) == (ps + spec_phinodes_tail(cs@, j as int).0, spec_phinodes_tail(cs@, j as int).1),
        decreases cs@.len() - j,
    {
        let k = match ws1(cs, j) {
            Some(k) => k,
            None => {
                assert(ps + seq![] =~= ps);
                return (out, j, ok);
            },
        };
        match phinode(text, cs, k) {
            Some((b2, n, p, e)) => {
                let ghost before = ps;
                let good = b2 == b && n == out.len();
                out.push(p);
                proof {
                    ps = ps.push((b2, n));
                    assert(before + (seq![(b2, n)] + spec_phinodes_tail(cs@, e as int).0) =~= ps
                        + spec_phinodes_tail(cs@, e as int).0);
                    if ok && good {
                        assert forall|m: int| 0 <= m < ps.len() implies #[trigger] ps[m] == (b, m as usize) by {
                            if m < before.len() {
                                assert(before[m] == (b, m as usize));
                            }
                        }
                    }
                    if !ok {
                        let m = choose|m: int| 0 <= m < before.len() && !(#[trigger] before[m] == (b, m as usize));
                        assert(ps[m] == before[m]);
                    }
                    if !good {
                        assert(ps[before.len() as int] == (b2, n));
                    }
                }
                ok = ok && good;
                j = e;
            },
            None => {
                assert(ps + seq![] =~= ps);
                return (out, j, ok);
            },
        }
    }
}

/// Instructions separated by white space, possibly none, and whether they belong to block `b`
/// and are numbered from 0 in order.
#[verifier::loop_isolation(false)]
fn instruction_list(text: &str, cs: &Vec<char>, i: usize, b: BlockId) -> (r: (Vec<Named<Instruction>>, usize, bool))
    requires
        cs@ == text@,
        i <= cs@.len(),
    ensures
        r.1 == spec_instructions(cs@, i as int).1,
        r.2 == numbered_in_order(spec_instructions(cs@, i as int).0, b),
        i <= r.1 <= cs@.len(),
{
    let mut out: Vec<Named<Instruction>> = Vec::new();
    let (b2, n, p, e) = match instruction(text, cs, i) {
        Some(x) => x,
        None => {
            assert(numbered_in_order(seq![], b));
            return (out, i, true);
        },
    };
    let mut ok = b2 == b && n == 0;
    out.push(p);
    let ghost mut ps: Seq<(BlockId, usize)> = seq![(b2, n)];
    assert(ok == numbered_in_order(ps, b)) by {
        if ok {
            assert forall|m: int| 0 <= m < ps.len() implies #[trigger] ps[m] == (b, m as usize) by {}
        } else {
            assert(ps[0] != (b, 0usize));
        }
    }
    let mut j = e;
    loop
        invariant
            i < j <= cs@.len(),
            out@.len() == ps.len(),
            ok == numbered_in_order(ps, b),
            spec_instructions(cs@, i as int) == (ps + spec_instructions_tail(cs@, j as int).0, spec_instructions_tail(cs@, j as int).1),
        decreases cs@.len() - j,
    {
        let k = match ws1(cs, j) {
            Some(k) => k,
            None => {
                assert(ps + seq![] =~= ps);
                return (out, j, ok);
            },
        };
        match instruction(text, cs, k) {
            Some((b2, n, p, e)) => {
                let ghost before = ps;
                let good = b2 == b && n == out.len();
                out.push(p);
                proof {
                    ps = ps.push((b2, n));
                    assert(before + (seq![(b2, n)] + spec_instructions_tail(cs@, e as int).0) =~= ps
                        + spec_instructions_tail(cs@, e as int).0);
                    if ok && good {
                        assert forall|m: int| 0 <= m < ps.len() implies #[trigger] ps[m] == (b, m as usize) by {
                            if m < before.len() {
                                assert(before[m] == (b, m as usize));
                            }
                        }
                    }
                    if !ok {
                        let m = choose|m: int| 0 <= m < before.len() && !(#[trigger] before[m] == (b, m as usize));
                        assert(ps[m] == before[m]);
                    }
                    if !good {
                        assert(ps[before.len() as int] == (b2, n));
                    }
                }
                ok = ok && good;
                j = e;
            },
            None => {
                assert(ps + seq![] =~= ps);
                return (out, j, ok);
            },
        }
    }
}

/// Puts a block among blocks kept in increasing order of id: in place of the block with the
/// same id, if there is one, or else where its id belongs.
#[verifier::loop_isolation(false)]
fn insert_block(blocks: &mut Vec<(BlockId, Block)>, b: BlockId, block: Block)
    ensures
        final(blocks)@.len() >= old(blocks)@.len(),
{
    let mut p: usize = 0;
    while p < blocks.len() && (blocks[p].0).0 < b.0
        invariant
            p <= blocks@.len(),
            blocks@ == old(blocks)@,
        decreases blocks@.len() - p,
    {
        p = p + 1;
    }
    if p < blocks.len() && (blocks[p].0).0 == b.0 {
        blocks.set(p, (b, block));
    } else {
        blocks.insert(p, (b, block));
    }
}

/// The body of a function: `init:`, `bid:` and the initial block's id, `allocations:` and the
/// allocations, then the blocks.
#[verifier::loop_isolation(false)]
#[verifier::spinoff_prover]
fn fun_body(text: &str, cs: &Vec<char>, i: usize) -> (r: Option<(FunctionDefinition, usize)>)
    requires
        cs@ == text@,
        i <= cs@.len(),
    ensures
        match r {
            Some((_, j)) => spec_fun_body(cs@, i as int) == Some(j as int),
            None => spec_fun_body(cs@, i as int) is None,
        },
        r matches Some((_, j)) ==> i < j <= cs@.len(),
{
    let j = match keyword(cs, i, "init:") {
        Some(j) => j,
        None => {
            return None;
        },
    };
    let j = match lit(cs, j, "bid:") {
        Some(j) => skip_ws(cs, j),
        None => {
            return None;
        },
    };
    let (bid_init, j) = match bid(cs, j) {
        Some(x) => x,
        None => {
            return None;
        },
    };
    let j = skip_ws(cs, j);
    let start = match lit(cs, j, "allocations:") {
        Some(j) => skip_ws(cs, j),
        None => {
            return None;
        },
    };
    let mut allocations: Vec<Named<Dtype>> = Vec::new();
    let mut j = start;
    if let Some((a, e)) = allocation(text, cs, start) {
        allocations.push(a);
        j = e;
        loop
            invariant
                start < j <= cs@.len(),
                i < start,
                spec_items(cs@, start as int, false) == spec_items_tail(cs@, j as int, false),
            decreases cs@.len() - j,
        {
            let k = match ws1(cs, j) {
                Some(k) => k,
                None => {
                    break ;
                },
            };
            match allocation(text, cs, k) {
                Some((a, e)) => {
                    allocations.push(a);
                    j = e;
                },
                None => {
                    break ;
                },
            }
        }
    }
    let start2 = skip_ws(cs, j);
    let mut blocks: Vec<(BlockId, Block)> = Vec::new();
    j = start2;
    if let Some((b, body, e)) = block(text, cs, start2) {
        insert_block(&mut blocks, b, body);
        j = e;
        loop
            invariant
                start2 < j <= cs@.len(),
                i < start,
                start <= start2,
                spec_items(cs@, start2 as int, true) == spec_items_tail(cs@, j as int, true),
            decreases cs@.len() - j,
        {
            let k = match ws1(cs, j) {
                Some(k) => k,
                None => {
                    break ;
                },
            };
            match block(text, cs, k) {
                Some((b, body, e)) => {
                    insert_block(&mut blocks, b, body);
                    j = e;
                },
                None => {
                    break ;
                },
            }
        }
    }
    Some((FunctionDefinition { allocations, blocks, bid_init }, j))
}

/// Whether `c` is a hexadecimal digit.
fn is_hex_digit(c: char) -> (r: bool)
    ensures
        r == is_hex_digit_char(c),
{
    ('0' <= c && c <= '9') || ('a' <= c && c <= 'f') || ('A' <= c && c <= 'F')
}

/// The size suffix of an integer literal: `l` or `L` for `long`, or nothing for `int`.
fn integer_suffix(cs: &Vec<char>, i: usize) -> (r: (IntegerSize, usize))
    requires
        i <= cs@.len(),
    ensures
        r.1 == spec_integer_suffix(cs@, i as int),
        i <= r.1 <= cs@.len(),
{
    if is_char(cs, i, 'l') || is_char(cs, i, 'L') {
        (IntegerSize::Long, i + 1)
    } else {
        (IntegerSize::Int, i)
    }
}

/// Hexadecimal digits from `i` on: the position after them.
#[verifier::loop_isolation(false)]
fn hex_digits(cs: &Vec<char>, i: usize) -> (r: usize)
    requires
        i <= cs@.len(),
    ensures
        r == i + hex_run(cs@, i as int),
        i <= r <= cs@.len(),
{
    let mut j = i;
    while j < cs.len() && is_hex_digit(cs[j])
        invariant
            i <= j <= cs@.len(),
            (j - i) + hex_run(cs@, j as int) == hex_run(cs@, i as int),
        decreases cs@.len() - j,
    {
        j = j + 1;
    }
    j
}

/// An integer literal of an initializer: digits not starting with `0` (hexadecimal letters
/// among them, read as decimal), or `0x` and hexadecimal digits, or `0` and digits (octal), or
/// `0`; then maybe a `long` suffix.
fn ast_integer(text: &str, cs: &Vec<char>, i: usize) -> (r: Option<(Integer, usize)>)
    requires
        cs@ == text@,
        i <= cs@.len(),
    ensures
        match r {
            Some((_, j)) => spec_ast_integer(cs@, i as int) == Some(j as int),
            None => spec_ast_integer(cs@, i as int) is None,
        },
        r matches Some((_, j)) ==> i < j <= cs@.len(),
{
    if i < cs.len() && is_hex_digit(cs[i]) && cs[i] != '0' {
        let j = hex_digits(cs, i + 1);
        let number = String::from_str(text.substring_char(i, j));
        let (size, k) = integer_suffix(cs, j);
        return Some((Integer { base: IntegerBase::Decimal, number, size, unsigned: false }, k));
    }
    if is_char(cs, i, '0') {
        let (base, start) = if is_char(cs, i + 1, 'x') || is_char(cs, i + 1, 'X') {
            (IntegerBase::Hexadecimal, i + 2)
        } else {
            (IntegerBase::Octal, i + 1)
        };
        let j = hex_digits(cs, start);
        if j > start {
            let number = String::from_str(text.substring_char(start, j));
            let (size, k) = integer_suffix(cs, j);
            return Some((Integer { base, number, size, unsigned: false }, k));
        }
        let (size, k) = integer_suffix(cs, i + 1);
        return Some((Integer { base: IntegerBase::Decimal, number: String::from_str("0"), size, unsigned: false }, k));
    }
    None
}

/// An expression of an initializer: an integer literal, or `+` or `-` applied to one in
/// parentheses.
fn ast_expression(text: &str, cs: &Vec<char>, i: usize) -> (r: Option<(Expression, usize)>)
    requires
        cs@ == text@,
        i <= cs@.len(),
    ensures
        match r {
            Some((_, j)) => spec_ast_expression(cs@, i as int) == Some(j as int),
            None => spec_ast_expression(cs@, i as int) is None,
        },
        r matches Some((_, j)) ==> i < j <= cs@.len(),
{
    if let Some((n, j)) = ast_integer(text, cs, i) {
        return Some((Expression::Constant(crate::c::ast::Constant::Integer(n)), j));
    }
    let operator = if is_char(cs, i, '+') {
        crate::c::ast::UnaryOperator::Plus
    } else if is_char(cs, i, '-') {
        crate::c::ast::UnaryOperator::Minus
    } else {
        return None;
    };
    if let Some(j) = sep(cs, i + 1, '(') {
        if let Some((n, j)) = ast_integer(text, cs, j) {
            let j = skip_ws(cs, j);
            if is_char(cs, j, ')') {
                let operand = Box::new(Expression::Constant(crate::c::ast::Constant::Integer(n)));
                return Some((Expression::UnaryOperator { operator, operand }, j + 1));
            }
        }
    }
    None
}

/// An initializer: an expression, or initializers in braces separated by commas.
fn ast_initializer(text: &str, cs: &Vec<char>, i: usize) -> (r: Option<(Initializer, usize)>)
    requires
        cs@ == text@,
        i <= cs@.len(),
    ensures
        match r {
            Some((_, j)) => spec_ast_initializer(cs@, i as int) == Some(j as int),
            None => spec_ast_initializer(cs@, i as int) is None,
        },
        r matches Some((_, j)) ==> i < j <= cs@.len(),
    decreases cs@.len() - i, 0nat,
{
    if let Some((e, j)) = ast_expression(text, cs, i) {
        return Some((Initializer::Expression(e), j));
    }
    if is_char(cs, i, '{') {
        let j = skip_ws(cs, i + 1);
        let (items, j) = initializer_list(text, cs, j);
        let j = skip_ws(cs, j);
        if is_char(cs, j, '}') {
            return Some((Initializer::List(items), j + 1));
        }
    }
    None
}

/// Initializers separated by commas with white space around them, possibly none.
#[verifier::loop_isolation(false)]
fn initializer_list(text: &str, cs: &Vec<char>, i: usize) -> (r: (Vec<Initializer>, usize))
    requires
        cs@ == text@,
        i <= cs@.len(),
    ensures
        r.1 == spec_initializer_list(cs@, i as int),
        i <= r.1 <= cs@.len(),
    decreases cs@.len() - i, 1nat,
{
    let mut out: Vec<Initializer> = Vec::new();
    let mut j = match ast_initializer(text, cs, i) {
        Some((x, e)) => {
            out.push(x);
            e
        },
        None => {
            return (out, i);
        },
    };
    loop
        invariant
            i < j <= cs@.len(),
            spec_initializer_list(cs@, i as int) == spec_initializer_list_tail(cs@, j as int),
        decreases cs@.len() - j,
    {
        let k = match sep(cs, j, ',') {
            Some(k) => k,
            None => {
                return (out, j);
            },
        };
        match ast_initializer(text, cs, k) {
            Some((x, e)) => {
                out.push(x);
                j = e;
            },
            None => {
                return (out, j);
            },
        }
    }
}

/// A global declaration: `var`, its type, its name, `=` and its initializer (`default` for
/// none), or `fun`, its return type, its name and its parameter types, with its body in braces
/// where it is defined.
#[verifier::spinoff_prover]
fn named_decl(text: &str, cs: &Vec<char>, i: usize) -> (r: Option<(String, Declaration, usize)>)
    requires
        cs@ == text@,
        i <= cs@.len(),
    ensures
        match r {
            Some((name, d, j)) => spec_named_decl(cs@, i as int) == Some((name@, declaration_form(d), j as int)),
            None => spec_named_decl(cs@, i as int) is None,
        },
        r matches Some((_, _, j)) ==> i < j <= cs@.len(),
{
    if let Some(j) = keyword(cs, i, "var") {
        if let Some((dtype, j)) = dtype(text, cs, j) {
            if let Some(j) = ws1(cs, j) {
                if let Some((name, j)) = global_variable(text, cs, j) {
                    if let Some(j) = sep(cs, j, '=') {
                        if let Some(k) = lit(cs, j, "default") {
                            return Some((name, Declaration::Variable { dtype, initializer: None }, k));
                        }
                        if let Some((init, k)) = ast_initializer(text, cs, j) {
                            return Some((name, Declaration::Variable { dtype, initializer: Some(init) }, k));
                        }
                    }
                }
            }
        }
    }
    if let Some(j) = keyword(cs, i, "fun") {
        if let Some((ret, j)) = dtype(text, cs, j) {
            if let Some(j) = ws1(cs, j) {
                if let Some((name, j)) = global_variable(text, cs, j) {
                    let j = skip_ws(cs, j);
                    if is_char(cs, j, '(') {
                        let (params, j) = dtype_list(text, cs, j + 1);
                        let j = skip_ws(cs, j);
                        if is_char(cs, j, ')') {
                            let after = j + 1;
                            let signature = FunctionSignature { ret, params };
                            if let Some(k) = sep(cs, after, '{') {
                                if let Some((body, k)) = fun_body(text, cs, k) {
                                    let k = skip_ws(cs, k);
                                    if is_char(cs, k, '}') {
                                        return Some((name, Declaration::Function { signature, definition: Some(body) }, k + 1));
                                    }
                                }
                            }
                            return Some((name, Declaration::Function { signature, definition: None }, after));
                        }
                    }
                }
            }
        }
    }
    None
}

/// A field of a struct type: `%anon` or a name, `:` and its type.
fn struct_field(text: &str, cs: &Vec<char>, i: usize) -> (r: Option<(Named<Dtype>, usize)>)
    requires
        cs@ == text@,
        i <= cs@.len(),
    ensures
        match r {
            Some((f, j)) => spec_struct_field(cs@, i as int) == Some((field_view(f), j as int)),
            None => spec_struct_field(cs@, i as int) is None,
        },
        r matches Some((_, j)) ==> i < j <= cs@.len(),
{
    let (name, j) = if let Some(j) = lit(cs, i, "%anon") {
        (None, j)
    } else if let Some((n, j)) = id(text, cs, i) {
        (Some(n), j)
    } else {
        return None;
    };
    if let Some(j) = sep(cs, j, ':') {
        if let Some((d, k)) = dtype(text, cs, j) {
            return Some((Named { name, inner: d }, k));
        }
    }
    None
}

/// Struct fields separated by commas with white space around them, possibly none.
#[verifier::loop_isolation(false)]
fn struct_fields(text: &str, cs: &Vec<char>, i: usize) -> (r: (Vec<Named<Dtype>>, usize))
    requires
        cs@ == text@,
        i <= cs@.len(),
    ensures
        spec_struct_fields(cs@, i as int) == (fields_view(r.0@), r.1 as int),
        i <= r.1 <= cs@.len(),
{
    let mut out: Vec<Named<Dtype>> = Vec::new();
    let mut j = match struct_field(text, cs, i) {
        Some((x, e)) => {
            out.push(x);
            e
        },
        None => {
            assert(fields_view(out@) =~= seq![]);
            return (out, i);
        },
    };
    assert(fields_view(out@) =~= seq![field_view(out@[0])]);
    loop
        invariant
            i < j <= cs@.len(),
            spec_struct_fields(cs@, i as int) == (
                fields_view(out@) + spec_struct_fields_tail(cs@, j as int).0,
                spec_struct_fields_tail(cs@, j as int).1,
            ),
        decreases cs@.len() - j,
    {
        let k = match sep(cs, j, ',') {
            Some(k) => k,
            None => {
                assert(fields_view(out@) + seq![] =~= fields_view(out@));
                return (out, j);
            },
        };
        match struct_field(text, cs, k) {
            Some((x, e)) => {
                let ghost before = out@;
                let ghost f = field_view(x);
                out.push(x);
                assert(fields_view(out@) =~= fields_view(before).push(f));
                assert(fields_view(before) + (seq![f] + spec_struct_fields_tail(cs@, e as int).0) =~= fields_view(
                    out@,
                ) + spec_struct_fields_tail(cs@, e as int).0);
                j = e;
            },
            None => {
                assert(fields_view(out@) + seq![] =~= fields_view(out@));
                return (out, j);
            },
        }
    }
}

/// A struct type: `struct`, its name, `:` and `opaque` where it is only declared, or its
/// fields in braces.
#[verifier::spinoff_prover]
fn named_struct(text: &str, cs: &Vec<char>, i: usize) -> (r: Option<(String, Option<Dtype>, usize)>)
    requires
        cs@ == text@,
        i <= cs@.len(),
    ensures
        match r {
            Some((name, d, j)) => spec_named_struct(cs@, i as int) == Some((name@, struct_form(d), j as int)),
            None => spec_named_struct(cs@, i as int) is None,
        },
        r matches Some((_, _, j)) ==> i < j <= cs@.len(),
{
    if let Some(j) = keyword(cs, i, "struct") {
        if let Some((name, j)) = id(text, cs, j) {
            if let Some(j) = sep(cs, j, ':') {
                if let Some(k) = lit(cs, j, "opaque") {
                    return Some((name, None, k));
                }
                if is_char(cs, j, '{') {
                    let j = skip_ws(cs, j + 1);
                    let (fields, j) = struct_fields(text, cs, j);
                    let j = skip_ws(cs, j);
                    if is_char(cs, j, '}') {
                        let d = Dtype::structure(Some(name.clone()), Some(fields));
                        return Some((name, Some(d), j + 1));
                    }
                }
            }
        }
    }
    None
}

/// The characters of `text`, in order.
fn text_chars(text: &str) -> (r: Vec<char>)
    ensures
        r@ == text@,
{
    let mut out: Vec<char> = Vec::new();
    proof {
        broadcast use vstd::string::axiom_spec_iter;
    }
    for c in it: text.chars()
        invariant
            out@ == it.seq().take(it.index() as int),
    {
        out.push(c);
    }
    out
}

/// Struct types separated by white space, possibly none, at `i`, into a table by name; `Err` with
/// the position of the first whose name was declared before.
#[verifier::loop_isolation(false)]
#[verifier::rlimit(40)]
#[verifier::spinoff_prover]
fn struct_list(text: &str, cs: &Vec<char>, i: usize) -> (r: Result<(StringMap<Option<Dtype>>, usize), usize>)
    requires
        cs@ == text@,
        i <= cs@.len(),
    ensures
        match r {
            Ok((m, j)) => m.wf() && names_distinct(struct_entries(m)) && spec_named_list(cs@, i as int, false) == (
                struct_entries(m),
                j as int,
            ),
            Err(p) => !names_distinct(spec_named_list(cs@, i as int, false).0) && p <= cs@.len(),
        },
        r matches Ok((_, j)) ==> i <= j <= cs@.len(),
{
    let mut m: StringMap<Option<Dtype>> = StringMap::new();
    assert(struct_entries(m) =~= seq![]);
    let (name, d, e) = match named_struct(text, cs, i) {
        Some(x) => x,
        None => {
            return Ok((m, i));
        },
    };
    let ghost first = (name@, struct_form(d));
    m.insert_new(name, d);
    assert(struct_entries(m) =~= seq![first]);
    let mut j = e;
    loop
        invariant
            i < j <= cs@.len(),
            m.wf(),
            names_distinct(struct_entries(m)),
            spec_named_list(cs@, i as int, false) == (
                struct_entries(m) + spec_named_list_tail(cs@, j as int, false).0,
                spec_named_list_tail(cs@, j as int, false).1,
            ),
        decreases cs@.len() - j,
    {
        let k = match ws1(cs, j) {
            Some(k) => k,
            None => {
                assert(struct_entries(m) + seq![] =~= struct_entries(m));
                return Ok((m, j));
            },
        };
        match named_struct(text, cs, k) {
            Some((name, d, e)) => {
                let ghost before = struct_entries(m);
                let ghost keys = m.spec_keys();
                let ghost entry = (name@, struct_form(d));
                let ghost rest = spec_named_list_tail(cs@, e as int, false).0;
                proof {
                    m.lemma_dom();
                    assert forall|x: int| 0 <= x < keys.len() implies keys[x] == before[x].0 by {}
                }
                if m.contains_key(&name) {
                    proof {
                        assert(keys.to_set().contains(entry.0));
                        let a = choose|a: int| 0 <= a < keys.len() && keys[a] == entry.0;
                        let full = before + (seq![entry] + rest);
                        assert(full[a].0 == entry.0);
                        assert(full[before.len() as int].0 == entry.0);
                    }
                    return Err(k);
                }
                m.insert_new(name, d);
                proof {
                    assert(struct_entries(m) =~= before.push(entry));
                    assert(before + (seq![entry] + rest) =~= struct_entries(m) + rest);
                    assert forall|x: int, y: int| 0 <= x < y < struct_entries(m).len() implies struct_entries(m)[x].0 != struct_entries(m)[y].0 by {
                        if y == before.len() {
                            assert(struct_entries(m)[x] == before[x]);
                            assert(keys.to_set().contains(keys[x]));
                        }
                    }
                }
                j = e;
            },
            None => {
                assert(struct_entries(m) + seq![] =~= struct_entries(m));
                return Ok((m, j));
            },
        }
    }
}

/// Global declarations separated by white space, possibly none, at `i`, into a table by name; `Err` with
/// the position of the first whose name was declared before.
#[verifier::loop_isolation(false)]
#[verifier::rlimit(40)]
#[verifier::spinoff_prover]
fn decl_list(text: &str, cs: &Vec<char>, i: usize) -> (r: Result<(StringMap<Declaration>, usize), usize>)
    requires
        cs@ == text@,
        i <= cs@.len(),
    ensures
        match r {
            Ok((m, j)) => m.wf() && names_distinct(decl_entries(m)) && spec_named_list(cs@, i as int, true) == (
                decl_entries(m),
                j as int,
            ),
            Err(p) => !names_distinct(spec_named_list(cs@, i as int, true).0) && p <= cs@.len(),
        },
        r matches Ok((_, j)) ==> i <= j <= cs@.len(),
{
    let mut m: StringMap<Declaration> = StringMap::new();
    assert(decl_entries(m) =~= seq![]);
    let (name, d, e) = match named_decl(text, cs, i) {
        Some(x) => x,
        None => {
            return Ok((m, i));
        },
    };
    let ghost first = (name@, declaration_form(d));
    m.insert_new(name, d);
    assert(decl_entries(m) =~= seq![first]);
    let mut j = e;
    loop
        invariant
            i < j <= cs@.len(),
            m.wf(),
            names_distinct(decl_entries(m)),
            spec_named_list(cs@, i as int, true) == (
                decl_entries(m) + spec_named_list_tail(cs@, j as int, true).0,
                spec_named_list_tail(cs@, j as int, true).1,
            ),
        decreases cs@.len() - j,
    {
        let k = match ws1(cs, j) {
            Some(k) => k,
            None => {
                assert(decl_entries(m) + seq![] =~= decl_entries(m));
                return Ok((m, j));
            },
        };
        match named_decl(text, cs, k) {
            Some((name, d, e)) => {
                let ghost before = decl_entries(m);
                let ghost keys = m.spec_keys();
                let ghost entry = (name@, declaration_form(d));
                let ghost rest = spec_named_list_tail(cs@, e as int, true).0;
                proof {
                    m.lemma_dom();
                    assert forall|x: int| 0 <= x < keys.len() implies keys[x] == before[x].0 by {}
                }
                if m.contains_key(&name) {
                    proof {
                        assert(keys.to_set().contains(entry.0));
                        let a = choose|a: int| 0 <= a < keys.len() && keys[a] == entry.0;
                        let full = before + (seq![entry] + rest);
                        assert(full[a].0 == entry.0);
                        assert(full[before.len() as int].0 == entry.0);
                    }
                    return Err(k);
                }
                m.insert_new(name, d);
                proof {
                    assert(decl_entries(m) =~= before.push(entry));
                    assert(before + (seq![entry] + rest) =~= decl_entries(m) + rest);
                    assert forall|x: int, y: int| 0 <= x < y < decl_entries(m).len() implies decl_entries(m)[x].0 != decl_entries(m)[y].0 by {
                        if y == before.len() {
                            assert(decl_entries(m)[x] == before[x]);
                            assert(keys.to_set().contains(keys[x]));
                        }
                    }
                }
                j = e;
            },
            None => {
                assert(decl_entries(m) + seq![] =~= decl_entries(m));
                return Ok((m, j));
            },
        }
    }
}

/// Reads a whole program: white space, the struct types, then the global declarations, each
/// separated by white space, and nothing after them but white space (see `spec_parse_unit`).
/// A name declared twice is an error, and so is a fractional number, which this library does
/// not read.
#[verifier::loop_isolation(false)]
#[verifier::rlimit(40)]
#[verifier::spinoff_prover]
pub fn parse_translation_unit(text: &str) -> (r: Result<TranslationUnit, IrParseError>)
    ensures
        r is Ok <==> spec_parse_unit(text@) is Some,
        r matches Ok(u) ==> spec_parse_unit(text@) == Some((struct_entries(u.structs), decl_entries(u.decls)))
            && u.decls.wf() && u.structs.wf(),
        r matches Err(e) ==> e.position <= text@.len(),
{
    let cs = text_chars(text);
    let mut p: usize = 0;
    while p < cs.len()
        invariant
            p <= cs@.len(),
            forall|q: int| 0 <= q < p ==> cs@[q] != '.',
        decreases cs@.len() - p,
    {
        if cs[p] == '.' {
            proof {
                assert(text@[p as int] == '.');
            }
            return Err(IrParseError { position: p, expected: String::from_str("a number without a fraction") });
        }
        p = p + 1;
    }
    assert(!text@.contains('.'));
    let (structs, j) = match struct_list(text, &cs, skip_ws(&cs, 0)) {
        Ok(x) => x,
        Err(p) => {
            return Err(IrParseError { position: p, expected: String::from_str("a struct name not declared before") });
        },
    };
    let (decls, k) = match decl_list(text, &cs, skip_ws(&cs, j)) {
        Ok(x) => x,
        Err(p) => {
            return Err(IrParseError { position: p, expected: String::from_str("a name not declared before") });
        },
    };
    let e = skip_ws(&cs, k);
    if e < cs.len() {
        return Err(IrParseError { position: e, expected: String::from_str("a declaration") });
    }
    Ok(TranslationUnit { decls, structs })
}

/// The reader of the text of the intermediate representation.
#[derive(Debug, Clone, Copy)]
pub struct Parse {}

impl Parse {
    /// Reads the program that `text` holds (see `parse_translation_unit`).
    pub fn translate(&mut self, text: &str) -> (r: Result<TranslationUnit, IrParseError>)
        ensures
            r is Ok <==> spec_parse_unit(text@) is Some,
            r matches Ok(u) ==> spec_parse_unit(text@) == Some((struct_entries(u.structs), decl_entries(u.decls)))
                && u.decls.wf() && u.structs.wf(),
            r matches Err(e) ==> e.position <= text@.len(),
    {
        parse_translation_unit(text)
    }
}

} // verus!
