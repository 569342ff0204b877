//! The parts of the syntax tree of C declarations that the compiler reads to form data types.
//!
//! Constructs the compiler rejects are kept as `Other` variants, without their contents.
use vstd::prelude::*;

verus! {

broadcast use vstd::std_specs::vec::axiom_vec_decreases_to_view;

/// A type qualifier: `const`, or one the compiler does not support.
#[derive(Debug, Clone, Copy, PartialEq, Eq, Structural)]
pub enum TypeQualifier {
    Const,
    Other,
}

/// A storage class: `typedef`, or one the compiler does not support.
#[derive(Debug, Clone, Copy, PartialEq, Eq, Structural)]
pub enum StorageClassSpecifier {
    Typedef,
    Other,
}

/// A type specifier.
#[derive(Debug)]
pub enum TypeSpecifier {
    Void,
    Char,
    Short,
    Int,
    Long,
    Float,
    Double,
    Signed,
    Unsigned,
    Bool,
    Struct(StructType),
    TypedefName(String),
    /// `_Complex`, `_Atomic(..)`, `enum`, `typeof` and the like.
    Other,
}

/// A specifier or qualifier of a declaration.
#[derive(Debug)]
pub enum DeclarationSpecifier {
    StorageClass(StorageClassSpecifier),
    TypeSpecifier(TypeSpecifier),
    TypeQualifier(TypeQualifier),
    /// A function or alignment specifier, or an extension.
    Other,
}

/// A specifier or qualifier of a type name or a struct field.
#[derive(Debug)]
pub enum SpecifierQualifier {
    TypeSpecifier(TypeSpecifier),
    TypeQualifier(TypeQualifier),
    Extension,
}

/// A qualifier after a `*` in a declarator.
#[derive(Debug, Clone, Copy, PartialEq, Eq, Structural)]
pub enum PointerQualifier {
    TypeQualifier(TypeQualifier),
    Extension,
}

/// `struct` or `union`.
#[derive(Debug, Clone, Copy, PartialEq, Eq, Structural)]
pub enum StructKind {
    Struct,
    Union,
}

/// A struct (or union) type: its tag, and its fields where it is defined.
#[derive(Debug)]
pub struct StructType {
    pub kind: StructKind,
    pub identifier: Option<String>,
    pub declarations: Option<Vec<StructDeclaration>>,
}

/// A declaration inside a struct.
#[derive(Debug)]
pub enum StructDeclaration {
    Field(StructField),
    StaticAssert,
}

/// Fields of a struct sharing their specifiers: `int x, *p;`.
#[derive(Debug)]
pub struct StructField {
    pub specifiers: Vec<SpecifierQualifier>,
    pub declarators: Vec<StructDeclarator>,
}

/// One field's declarator; a bit field may have none.
#[derive(Debug)]
pub struct StructDeclarator {
    pub declarator: Option<Declarator>,
}

/// What a declarator declares: nothing (an abstract declarator), a name, or a parenthesized
/// declarator.
#[derive(Debug)]
pub enum DeclaratorKind {
    Abstract,
    Identifier(String),
    Declarator(Box<Declarator>),
}

/// A declarator: what it declares, and the pointer, array and function parts around it, in the
/// order the type is built from them.
#[derive(Debug)]
pub struct Declarator {
    pub kind: DeclaratorKind,
    pub derived: Vec<DerivedDeclarator>,
}

/// A part of a declarator that derives a type from another.
#[derive(Debug)]
pub enum DerivedDeclarator {
    Pointer(Vec<PointerQualifier>),
    Array(ArrayDeclarator),
    Function(FunctionDeclarator),
    /// An old-style function declarator, with the number of its parameter names.
    KRFunction(usize),
}

/// The size part of an array declarator, and its qualifiers.
#[derive(Debug)]
pub struct ArrayDeclarator {
    pub qualifiers: Vec<TypeQualifier>,
    pub size: ArraySize,
}

/// The size of an array declarator.
#[derive(Debug)]
pub enum ArraySize {
    Unknown,
    VariableUnknown,
    VariableExpression(Expression),
    StaticExpression(Expression),
}

/// The parameters of a function declarator.
#[derive(Debug)]
pub struct FunctionDeclarator {
    pub parameters: Vec<ParameterDeclaration>,
}

/// A parameter of a function declarator.
#[derive(Debug)]
pub struct ParameterDeclaration {
    pub specifiers: Vec<DeclarationSpecifier>,
    pub declarator: Option<Declarator>,
}

/// A type name, as in a cast or `sizeof`.
#[derive(Debug)]
pub struct TypeName {
    pub specifiers: Vec<SpecifierQualifier>,
    pub declarator: Option<Declarator>,
}

/// The unary operators of expressions that can stand in a constant.
#[derive(Debug, Clone, Copy, PartialEq, Eq, Structural)]
pub enum UnaryOperator {
    Plus,
    Minus,
    Other,
}

/// An expression: a constant, a unary operation, or another kind of expression.
#[derive(Debug)]
pub enum Expression {
    Constant(Constant),
    UnaryOperator { operator: UnaryOperator, operand: Box<Expression> },
    Other,
}

/// The base of an integer literal.
#[derive(Debug, Clone, Copy, PartialEq, Eq, Structural)]
pub enum IntegerBase {
    Decimal,
    Octal,
    Hexadecimal,
    Binary,
}

/// The size suffix of an integer literal.
#[derive(Debug, Clone, Copy, PartialEq, Eq, Structural)]
pub enum IntegerSize {
    Int,
    Long,
    LongLong,
}

/// An integer literal: its digits (without base prefix), base and suffix.
#[derive(Debug)]
pub struct Integer {
    pub base: IntegerBase,
    pub number: String,
    pub size: IntegerSize,
    pub unsigned: bool,
}

/// The format suffix of a floating-point literal.
#[derive(Debug, Clone, Copy, PartialEq, Eq, Structural)]
pub enum FloatFormat {
    Float,
    Double,
    LongDouble,
    /// A TS 18661 format such as `_Float128`.
    Other,
}

/// A floating-point literal: its text (without base prefix), whether it is hexadecimal, and its
/// format.
#[derive(Debug)]
pub struct FloatLiteral {
    pub number: String,
    pub hexadecimal: bool,
    pub format: FloatFormat,
}

/// A constant: an integer, a floating-point or a character literal (the character's text).
#[derive(Debug)]
pub enum Constant {
    Integer(Integer),
    Float(FloatLiteral),
    Character(String),
}

/// An initializer: an expression, or a braced list of initializers (designators are not
/// supported and not kept).
#[derive(Debug)]
pub enum Initializer {
    Expression(Expression),
    List(Vec<Initializer>),
}

/// A declarator of a declaration with its optional initializer.
#[derive(Debug)]
pub struct InitDeclarator {
    pub declarator: Declarator,
    pub initializer: Option<Initializer>,
}

/// A declaration: its specifiers and what it declares.
#[derive(Debug)]
pub struct Declaration {
    pub specifiers: Vec<DeclarationSpecifier>,
    pub declarators: Vec<InitDeclarator>,
}

/// The header of a function definition: its specifiers and its declarator.
#[derive(Debug)]
pub struct FunctionHeader {
    pub specifiers: Vec<DeclarationSpecifier>,
    pub declarator: Declarator,
}

impl Constant {
    /// A copy of the constant.
    pub fn duplicate(&self) -> (r: Self)
        ensures
            r == *self,
    {
        match self {
            Constant::Integer(i) => Constant::Integer(
                Integer { base: i.base, number: i.number.clone(), size: i.size, unsigned: i.unsigned },
            ),
            Constant::Float(f) => Constant::Float(
                FloatLiteral { number: f.number.clone(), hexadecimal: f.hexadecimal, format: f.format },
            ),
            Constant::Character(c) => Constant::Character(c.clone()),
        }
    }
}

impl Expression {
    /// A copy of the expression.
    pub fn duplicate(&self) -> (r: Self)
        ensures
            r == *self,
        decreases self,
    {
        match self {
            Expression::Constant(c) => Expression::Constant(c.duplicate()),
            Expression::UnaryOperator { operator, operand } => Expression::UnaryOperator {
                operator: *operator,
                operand: Box::new(operand.duplicate()),
            },
            Expression::Other => Expression::Other,
        }
    }
}

/// The model of an initializer: a list as a sequence.
pub enum InitializerModel {
    Expression(Expression),
    List(Seq<InitializerModel>),
}

impl Initializer {
    /// The model of the initializer.
    pub open spec fn spec_view(self) -> InitializerModel
        decreases self,
    {
        match self {
            Initializer::Expression(e) => InitializerModel::Expression(e),
            Initializer::List(items) => InitializerModel::List(
                Seq::new(
                    items@.len(),
                    |i: int|
                        if 0 <= i < items@.len() {
                            items@[i].spec_view()
                        } else {
                            InitializerModel::List(seq![])
                        },
                ),
            ),
        }
    }

    /// A copy of the initializer.
    #[verifier::loop_isolation(false)]
    pub fn duplicate(&self) -> (r: Self)
        ensures
            r@ == self@,
        decreases self,
    {
        match self {
            Initializer::Expression(e) => Initializer::Expression(e.duplicate()),
            Initializer::List(items) => {
                let mut copy: Vec<Initializer> = Vec::new();
                let mut i: usize = 0;
                while i < items.len()
                    invariant
                        i <= items@.len(),
                        copy@.len() == i,
                        forall|j: int| 0 <= j < i ==> copy@[j]@ == items@[j]@,
                    decreases items@.len() - i,
                {
                    proof {
                        assert(decreases_to!(*self => self->List_0));
                        assert(decreases_to!(self->List_0 => items@));
                        assert(decreases_to!(items@ => items@[i as int]));
                    }
                    copy.push(items[i].duplicate());
                    i = i + 1;
                }
                let r = Initializer::List(copy);
                assert(r@->List_0 =~= self@->List_0);
                r
            },
        }
    }
}

impl View for Initializer {
    type V = InitializerModel;

    open spec fn view(&self) -> InitializerModel {
        self.spec_view()
    }
}


/// Whether two constants are the same literal, texts compared by their characters.
pub open spec fn constant_same(a: Constant, b: Constant) -> bool {
    match (a, b) {
        (Constant::Integer(x), Constant::Integer(y)) => x.base == y.base && x.number@ == y.number@ && x.size
            == y.size && x.unsigned == y.unsigned,
        (Constant::Float(x), Constant::Float(y)) => x.number@ == y.number@ && x.hexadecimal == y.hexadecimal
            && x.format == y.format,
        (Constant::Character(x), Constant::Character(y)) => x@ == y@,
        _ => false,
    }
}

/// Whether two expressions are the same.
pub open spec fn expression_same(a: Expression, b: Expression) -> bool
    decreases a,
{
    match (a, b) {
        (Expression::Constant(x), Expression::Constant(y)) => constant_same(x, y),
        (
            Expression::UnaryOperator { operator: o1, operand: x },
            Expression::UnaryOperator { operator: o2, operand: y },
        ) => o1 == o2 && expression_same(*x, *y),
        (Expression::Other, Expression::Other) => true,
        _ => false,
    }
}

/// Whether two initializers are the same.
pub open spec fn initializer_same(a: InitializerModel, b: InitializerModel) -> bool
    decreases a,
{
    match (a, b) {
        (InitializerModel::Expression(x), InitializerModel::Expression(y)) => expression_same(x, y),
        (InitializerModel::List(xs), InitializerModel::List(ys)) => initializers_same(xs, ys),
        _ => false,
    }
}

/// Whether two lists of initializers are the same, item by item.
pub open spec fn initializers_same(xs: Seq<InitializerModel>, ys: Seq<InitializerModel>) -> bool
    decreases xs,
{
    if xs.len() == 0 || ys.len() == 0 {
        xs.len() == ys.len()
    } else {
        initializer_same(xs[0], ys[0]) && initializers_same(
            xs.subrange(1, xs.len() as int),
            ys.subrange(1, ys.len() as int),
        )
    }
}

/// Sameness of expressions is symmetric.
pub proof fn lemma_expression_same_symmetric(a: Expression, b: Expression)
    ensures
        expression_same(a, b) ==> expression_same(b, a),
    decreases a,
{
    if let (
        Expression::UnaryOperator { operand: x, .. },
        Expression::UnaryOperator { operand: y, .. },
    ) = (a, b) {
        lemma_expression_same_symmetric(*x, *y);
    }
}

/// Sameness of initializers is symmetric.
pub proof fn lemma_initializer_same_symmetric(a: InitializerModel, b: InitializerModel)
    ensures
        initializer_same(a, b) ==> initializer_same(b, a),
    decreases a,
{
    match (a, b) {
        (InitializerModel::Expression(x), InitializerModel::Expression(y)) => {
            lemma_expression_same_symmetric(x, y);
        },
        (InitializerModel::List(xs), InitializerModel::List(ys)) => {
            lemma_initializers_same_symmetric(xs, ys);
        },
        _ => {},
    }
}

/// Sameness of lists of initializers is symmetric.
pub proof fn lemma_initializers_same_symmetric(xs: Seq<InitializerModel>, ys: Seq<InitializerModel>)
    ensures
        initializers_same(xs, ys) ==> initializers_same(ys, xs),
    decreases xs,
{
    if xs.len() > 0 && ys.len() > 0 {
        lemma_initializer_same_symmetric(xs[0], ys[0]);
        lemma_initializers_same_symmetric(xs.subrange(1, xs.len() as int), ys.subrange(1, ys.len() as int));
    }
}

/// Every expression is the same as itself.
pub proof fn lemma_expression_same_reflexive(a: Expression)
    ensures
        expression_same(a, a),
    decreases a,
{
    if let Expression::UnaryOperator { operand: x, .. } = a {
        lemma_expression_same_reflexive(*x);
    }
}

/// Every initializer is the same as itself.
pub proof fn lemma_initializer_same_reflexive(a: InitializerModel)
    ensures
        initializer_same(a, a),
    decreases a,
{
    match a {
        InitializerModel::Expression(x) => lemma_expression_same_reflexive(x),
        InitializerModel::List(xs) => lemma_initializers_same_reflexive(xs),
    }
}

/// Every list of initializers is the same as itself.
pub proof fn lemma_initializers_same_reflexive(xs: Seq<InitializerModel>)
    ensures
        initializers_same(xs, xs),
    decreases xs,
{
    if xs.len() > 0 {
        lemma_initializer_same_reflexive(xs[0]);
        lemma_initializers_same_reflexive(xs.subrange(1, xs.len() as int));
    }
}

/// Sameness of expressions is transitive.
pub proof fn lemma_expression_same_transitive(a: Expression, b: Expression, c: Expression)
    ensures
        expression_same(a, b) && expression_same(b, c) ==> expression_same(a, c),
    decreases a,
{
    if let (
        Expression::UnaryOperator { operand: x, .. },
        Expression::UnaryOperator { operand: y, .. },
        Expression::UnaryOperator { operand: z, .. },
    ) = (a, b, c) {
        lemma_expression_same_transitive(*x, *y, *z);
    }
}

/// Sameness of initializers is transitive.
pub proof fn lemma_initializer_same_transitive(a: InitializerModel, b: InitializerModel, c: InitializerModel)
    ensures
        initializer_same(a, b) && initializer_same(b, c) ==> initializer_same(a, c),
    decreases a,
{
    match (a, b, c) {
        (InitializerModel::Expression(x), InitializerModel::Expression(y), InitializerModel::Expression(z)) => {
            lemma_expression_same_transitive(x, y, z);
        },
        (InitializerModel::List(xs), InitializerModel::List(ys), InitializerModel::List(zs)) => {
            lemma_initializers_same_transitive(xs, ys, zs);
        },
        _ => {},
    }
}

/// Sameness of lists of initializers is transitive.
pub proof fn lemma_initializers_same_transitive(
    xs: Seq<InitializerModel>,
    ys: Seq<InitializerModel>,
    zs: Seq<InitializerModel>,
)
    ensures
        initializers_same(xs, ys) && initializers_same(ys, zs) ==> initializers_same(xs, zs),
    decreases xs,
{
    if xs.len() > 0 && ys.len() > 0 && zs.len() > 0 {
        lemma_initializer_same_transitive(xs[0], ys[0], zs[0]);
        lemma_initializers_same_transitive(
            xs.subrange(1, xs.len() as int),
            ys.subrange(1, ys.len() as int),
            zs.subrange(1, zs.len() as int),
        );
    }
}

impl Constant {
    /// Whether two constants are the same literal.
    pub fn equals(&self, other: &Constant) -> (r: bool)
        ensures
            r == constant_same(*self, *other),
    {
        match (self, other) {
            (Constant::Integer(a), Constant::Integer(b)) => a.base == b.base && a.number == b.number && a.size
                == b.size && a.unsigned == b.unsigned,
            (Constant::Float(a), Constant::Float(b)) => a.number == b.number && a.hexadecimal == b.hexadecimal
                && a.format == b.format,
            (Constant::Character(a), Constant::Character(b)) => *a == *b,
            _ => false,
        }
    }
}

impl Expression {
    /// Whether two expressions are the same.
    pub fn equals(&self, other: &Expression) -> (r: bool)
        ensures
            r == expression_same(*self, *other),
        decreases self,
    {
        match (self, other) {
            (Expression::Constant(a), Expression::Constant(b)) => a.equals(b),
            (
                Expression::UnaryOperator { operator: o1, operand: a },
                Expression::UnaryOperator { operator: o2, operand: b },
            ) => *o1 == *o2 && a.equals(b),
            (Expression::Other, Expression::Other) => true,
            _ => false,
        }
    }
}

impl Initializer {
    /// Whether two initializers are the same.
    #[verifier::loop_isolation(false)]
    pub fn equals(&self, other: &Initializer) -> (r: bool)
        ensures
            r == initializer_same(self@, other@),
        decreases self,
    {
        match (self, other) {
            (Initializer::Expression(a), Initializer::Expression(b)) => a.equals(b),
            (Initializer::List(a), Initializer::List(b)) => {
                let ghost xs = self@->List_0;
                let ghost ys = other@->List_0;
                let mut i: usize = 0;
                assert(xs.subrange(0, xs.len() as int) =~= xs);
                assert(ys.subrange(0, ys.len() as int) =~= ys);
                while i < a.len() && i < b.len()
                    invariant
                        i <= a@.len(),
                        i <= b@.len(),
                        initializers_same(xs, ys) == initializers_same(
                            xs.subrange(i as int, xs.len() as int),
                            ys.subrange(i as int, ys.len() as int),
                        ),
                    decreases a@.len() - i,
                {
                    let ghost rx = xs.subrange(i as int, xs.len() as int);
                    let ghost ry = ys.subrange(i as int, ys.len() as int);
                    proof {
                        assert(rx[0] == a@[i as int]@);
                        assert(ry[0] == b@[i as int]@);
                        assert(rx.subrange(1, rx.len() as int) =~= xs.subrange(i + 1, xs.len() as int));
                        assert(ry.subrange(1, ry.len() as int) =~= ys.subrange(i + 1, ys.len() as int));
                        assert(decreases_to!(*self => self->List_0));
                        assert(decreases_to!(self->List_0 => a@));
                        assert(decreases_to!(a@ => a@[i as int]));
                    }
                    if !a[i].equals(&b[i]) {
                        return false;
                    }
                    i = i + 1;
                }
                a.len() == b.len()
            },
            _ => false,
        }
    }
}


} // verus!
