//! Equivalence of C declarations: the same specifiers and declarators, piece by piece.
//!
//! A construct the syntax tree keeps only as `Other` (an unsupported qualifier, specifier or
//! the like), an extension, a static assertion and an old-style parameter list are never
//! equivalent to anything, their contents being unknown.
use vstd::prelude::*;

use super::ast::{
    initializer_same, ArraySize, Declaration, DeclarationSpecifier, Declarator, DeclaratorKind, DerivedDeclarator,
    Initializer, InitDeclarator, ParameterDeclaration, PointerQualifier, SpecifierQualifier, StorageClassSpecifier,
    StructDeclaration, StructDeclarator, StructType, TypeQualifier, TypeSpecifier, expression_same, Expression,
};

verus! {

broadcast use vstd::std_specs::vec::axiom_vec_decreases_to_view;

/// Two type qualifiers are equivalent when both are `const`.
pub open spec fn qualifier_equiv(a: TypeQualifier, b: TypeQualifier) -> bool {
    a is Const && b is Const
}

/// Two pointer qualifiers are equivalent type qualifiers.
pub open spec fn pointer_qualifier_equiv(a: PointerQualifier, b: PointerQualifier) -> bool {
    match (a, b) {
        (PointerQualifier::TypeQualifier(x), PointerQualifier::TypeQualifier(y)) => qualifier_equiv(x, y),
        _ => false,
    }
}

/// Two storage classes are equivalent when both are `typedef`.
pub open spec fn storage_equiv(a: StorageClassSpecifier, b: StorageClassSpecifier) -> bool {
    a is Typedef && b is Typedef
}

/// Two optional names are the same.
pub open spec fn names_same(a: Option<String>, b: Option<String>) -> bool {
    match (a, b) {
        (Some(x), Some(y)) => x@ == y@,
        (None, None) => true,
        _ => false,
    }
}

/// Two declarators are equivalent: what they declare, and their derived parts one by one.
pub open spec fn declarator_equiv(a: Declarator, b: Declarator) -> bool
    decreases a,
{
    &&& kind_equiv(a.kind, b.kind)
    &&& a.derived@.len() == b.derived@.len()
    &&& forall|i: int| 0 <= i < a.derived@.len() ==> derived_equiv(#[trigger] a.derived@[i], b.derived@[i])
}

/// Two optional declarators are equivalent: both absent, or equivalent.
pub open spec fn opt_declarator_equiv(a: Option<Declarator>, b: Option<Declarator>) -> bool
    decreases a,
{
    match (a, b) {
        (Some(x), Some(y)) => declarator_equiv(x, y),
        (None, None) => true,
        _ => false,
    }
}

/// What two declarators declare is equivalent: both abstract, the same name, or equivalent
/// inner declarators.
pub open spec fn kind_equiv(a: DeclaratorKind, b: DeclaratorKind) -> bool
    decreases a,
{
    match (a, b) {
        (DeclaratorKind::Abstract, DeclaratorKind::Abstract) => true,
        (DeclaratorKind::Identifier(x), DeclaratorKind::Identifier(y)) => x@ == y@,
        (DeclaratorKind::Declarator(x), DeclaratorKind::Declarator(y)) => declarator_equiv(*x, *y),
        _ => false,
    }
}

/// Two array sizes are equivalent: both unknown, or the same expression of the same kind.
pub open spec fn size_equiv(a: ArraySize, b: ArraySize) -> bool {
    match (a, b) {
        (ArraySize::Unknown, ArraySize::Unknown) => true,
        (ArraySize::VariableUnknown, ArraySize::VariableUnknown) => true,
        (ArraySize::VariableExpression(x), ArraySize::VariableExpression(y)) => expression_same(x, y),
        (ArraySize::StaticExpression(x), ArraySize::StaticExpression(y)) => expression_same(x, y),
        _ => false,
    }
}

/// Two derived parts are equivalent: pointers with equivalent qualifiers, arrays with
/// equivalent qualifiers and sizes, functions with equivalent parameters.
pub open spec fn derived_equiv(a: DerivedDeclarator, b: DerivedDeclarator) -> bool
    decreases a,
{
    match (a, b) {
        (DerivedDeclarator::Pointer(x), DerivedDeclarator::Pointer(y)) => x@.len() == y@.len() && forall|i: int|
            0 <= i < x@.len() ==> pointer_qualifier_equiv(#[trigger] x@[i], y@[i]),
        (DerivedDeclarator::Array(x), DerivedDeclarator::Array(y)) => x.qualifiers@.len() == y.qualifiers@.len()
            && (forall|i: int|
            0 <= i < x.qualifiers@.len() ==> qualifier_equiv(#[trigger] x.qualifiers@[i], y.qualifiers@[i]))
            && size_equiv(x.size, y.size),
        (DerivedDeclarator::Function(x), DerivedDeclarator::Function(y)) => x.parameters@.len()
            == y.parameters@.len() && forall|i: int|
            0 <= i < x.parameters@.len() ==> parameter_equiv(#[trigger] x.parameters@[i], y.parameters@[i]),
        _ => false,
    }
}

/// Two parameters are equivalent: equivalent specifiers and declarators.
pub open spec fn parameter_equiv(a: ParameterDeclaration, b: ParameterDeclaration) -> bool
    decreases a,
{
    &&& a.specifiers@.len() == b.specifiers@.len()
    &&& forall|i: int| 0 <= i < a.specifiers@.len() ==> specifier_equiv(#[trigger] a.specifiers@[i], b.specifiers@[i])
    &&& opt_declarator_equiv(a.declarator, b.declarator)
}

/// Two declaration specifiers are equivalent storage classes, type specifiers or qualifiers.
pub open spec fn specifier_equiv(a: DeclarationSpecifier, b: DeclarationSpecifier) -> bool
    decreases a,
{
    match (a, b) {
        (DeclarationSpecifier::StorageClass(x), DeclarationSpecifier::StorageClass(y)) => storage_equiv(x, y),
        (DeclarationSpecifier::TypeSpecifier(x), DeclarationSpecifier::TypeSpecifier(y)) => type_specifier_equiv(x, y),
        (DeclarationSpecifier::TypeQualifier(x), DeclarationSpecifier::TypeQualifier(y)) => qualifier_equiv(x, y),
        _ => false,
    }
}

/// Two type specifiers are equivalent: the same basic type, equivalent struct types, or the
/// same type name.
pub open spec fn type_specifier_equiv(a: TypeSpecifier, b: TypeSpecifier) -> bool
    decreases a,
{
    match (a, b) {
        (TypeSpecifier::Void, TypeSpecifier::Void) => true,
        (TypeSpecifier::Char, TypeSpecifier::Char) => true,
        (TypeSpecifier::Short, TypeSpecifier::Short) => true,
        (TypeSpecifier::Int, TypeSpecifier::Int) => true,
        (TypeSpecifier::Long, TypeSpecifier::Long) => true,
        (TypeSpecifier::Float, TypeSpecifier::Float) => true,
        (TypeSpecifier::Double, TypeSpecifier::Double) => true,
        (TypeSpecifier::Signed, TypeSpecifier::Signed) => true,
        (TypeSpecifier::Unsigned, TypeSpecifier::Unsigned) => true,
        (TypeSpecifier::Bool, TypeSpecifier::Bool) => true,
        (TypeSpecifier::Struct(x), TypeSpecifier::Struct(y)) => struct_type_equiv(x, y),
        (TypeSpecifier::TypedefName(x), TypeSpecifier::TypedefName(y)) => x@ == y@,
        _ => false,
    }
}

/// Two struct types are equivalent: the same kind and tag, and equivalent field declarations
/// (or none in both).
pub open spec fn struct_type_equiv(a: StructType, b: StructType) -> bool
    decreases a,
{
    &&& a.kind == b.kind
    &&& names_same(a.identifier, b.identifier)
    &&& match (a.declarations, b.declarations) {
        (Some(x), Some(y)) => x@.len() == y@.len() && forall|i: int|
            0 <= i < x@.len() ==> struct_declaration_equiv(#[trigger] x@[i], y@[i]),
        (None, None) => true,
        _ => false,
    }
}

/// Two declarations in a struct are equivalent fields: equivalent specifiers and declarators.
pub open spec fn struct_declaration_equiv(a: StructDeclaration, b: StructDeclaration) -> bool
    decreases a,
{
    match (a, b) {
        (StructDeclaration::Field(x), StructDeclaration::Field(y)) => {
            &&& x.specifiers@.len() == y.specifiers@.len()
            &&& forall|i: int|
                0 <= i < x.specifiers@.len() ==> specifier_qualifier_equiv(#[trigger] x.specifiers@[i], y.specifiers@[i])
            &&& x.declarators@.len() == y.declarators@.len()
            &&& forall|i: int|
                0 <= i < x.declarators@.len() ==> struct_declarator_equiv(#[trigger] x.declarators@[i], y.declarators@[i])
        },
        _ => false,
    }
}

/// Two specifiers or qualifiers of a field are equivalent.
pub open spec fn specifier_qualifier_equiv(a: SpecifierQualifier, b: SpecifierQualifier) -> bool
    decreases a,
{
    match (a, b) {
        (SpecifierQualifier::TypeSpecifier(x), SpecifierQualifier::TypeSpecifier(y)) => type_specifier_equiv(x, y),
        (SpecifierQualifier::TypeQualifier(x), SpecifierQualifier::TypeQualifier(y)) => qualifier_equiv(x, y),
        _ => false,
    }
}

/// Two field declarators are equivalent.
pub open spec fn struct_declarator_equiv(a: StructDeclarator, b: StructDeclarator) -> bool
    decreases a,
{
    opt_declarator_equiv(a.declarator, b.declarator)
}

/// Two declarators with initializers are equivalent: equivalent declarators, and the same
/// initializers (or none in both).
pub open spec fn init_declarator_equiv(a: InitDeclarator, b: InitDeclarator) -> bool {
    &&& declarator_equiv(a.declarator, b.declarator)
    &&& match (a.initializer, b.initializer) {
        (Some(x), Some(y)) => initializer_same(x@, y@),
        (None, None) => true,
        _ => false,
    }
}

/// Two declarations are equivalent: equivalent specifiers and declarators, one by one.
pub open spec fn declaration_equiv(a: Declaration, b: Declaration) -> bool {
    &&& a.specifiers@.len() == b.specifiers@.len()
    &&& forall|i: int| 0 <= i < a.specifiers@.len() ==> specifier_equiv(#[trigger] a.specifiers@[i], b.specifiers@[i])
    &&& a.declarators@.len() == b.declarators@.len()
    &&& forall|i: int|
        0 <= i < a.declarators@.len() ==> init_declarator_equiv(#[trigger] a.declarators@[i], b.declarators@[i])
}


/// Whether two type qualifiers are equivalent.
fn qualifier_is_equiv(a: &TypeQualifier, b: &TypeQualifier) -> (r: bool)
    ensures
        r == qualifier_equiv(*a, *b),
{
    match (a, b) {
        (TypeQualifier::Const, TypeQualifier::Const) => true,
        _ => false,
    }
}

/// Whether two lists of type qualifiers are equivalent, one by one.
fn qualifiers_are_equiv(a: &Vec<TypeQualifier>, b: &Vec<TypeQualifier>) -> (r: bool)
    ensures
        r == (a@.len() == b@.len() && forall|i: int| 0 <= i < a@.len() ==> qualifier_equiv(#[trigger] a@[i], b@[i])),
{
    if a.len() != b.len() {
        return false;
    }
    let mut i: usize = 0;
    while i < a.len()
        invariant
            a@.len() == b@.len(),
            i <= a@.len(),
            forall|j: int| 0 <= j < i ==> qualifier_equiv(#[trigger] a@[j], b@[j]),
        decreases a@.len() - i,
    {
        if !qualifier_is_equiv(&a[i], &b[i]) {
            return false;
        }
        i = i + 1;
    }
    true
}

/// Whether two optional names are the same.
fn names_are_same(a: &Option<String>, b: &Option<String>) -> (r: bool)
    ensures
        r == names_same(*a, *b),
{
    match (a, b) {
        (Some(x), Some(y)) => *x == *y,
        (None, None) => true,
        _ => false,
    }
}

impl Declarator {
    /// Whether two declarators are equivalent (see `declarator_equiv`).
    #[verifier::loop_isolation(false)]
    pub fn is_equiv(&self, other: &Declarator) -> (r: bool)
        ensures
            r == declarator_equiv(*self, *other),
        decreases self,
    {
        proof {
            assert(decreases_to!(*self => self.kind));
        }
        if !kind_is_equiv(&self.kind, &other.kind) {
            return false;
        }
        if self.derived.len() != other.derived.len() {
            return false;
        }
        let mut i: usize = 0;
        while i < self.derived.len()
            invariant
                self.derived@.len() == other.derived@.len(),
                i <= self.derived@.len(),
                forall|j: int| 0 <= j < i ==> derived_equiv(#[trigger] self.derived@[j], other.derived@[j]),
            decreases self.derived@.len() - i,
        {
            proof {
                assert(decreases_to!(*self => self.derived));
                assert(decreases_to!(self.derived => self.derived@));
                assert(decreases_to!(self.derived@ => self.derived@[i as int]));
            }
            if !derived_is_equiv(&self.derived[i], &other.derived[i]) {
                return false;
            }
            i = i + 1;
        }
        true
    }
}

/// Whether two optional declarators are equivalent.
fn opt_declarator_is_equiv(a: &Option<Declarator>, b: &Option<Declarator>) -> (r: bool)
    ensures
        r == opt_declarator_equiv(*a, *b),
    decreases a,
{
    match (a, b) {
        (Some(x), Some(y)) => x.is_equiv(y),
        (None, None) => true,
        _ => false,
    }
}

/// Whether what two declarators declare is equivalent.
fn kind_is_equiv(a: &DeclaratorKind, b: &DeclaratorKind) -> (r: bool)
    ensures
        r == kind_equiv(*a, *b),
    decreases a,
{
    match (a, b) {
        (DeclaratorKind::Abstract, DeclaratorKind::Abstract) => true,
        (DeclaratorKind::Identifier(x), DeclaratorKind::Identifier(y)) => *x == *y,
        (DeclaratorKind::Declarator(x), DeclaratorKind::Declarator(y)) => x.is_equiv(y),
        _ => false,
    }
}

/// Whether two array sizes are equivalent.
fn size_is_equiv(a: &ArraySize, b: &ArraySize) -> (r: bool)
    ensures
        r == size_equiv(*a, *b),
{
    match (a, b) {
        (ArraySize::Unknown, ArraySize::Unknown) => true,
        (ArraySize::VariableUnknown, ArraySize::VariableUnknown) => true,
        (ArraySize::VariableExpression(x), ArraySize::VariableExpression(y)) => x.equals(y),
        (ArraySize::StaticExpression(x), ArraySize::StaticExpression(y)) => x.equals(y),
        _ => false,
    }
}

/// Whether two derived parts of declarators are equivalent.
#[verifier::loop_isolation(false)]
fn derived_is_equiv(a: &DerivedDeclarator, b: &DerivedDeclarator) -> (r: bool)
    ensures
        r == derived_equiv(*a, *b),
    decreases a,
{
    match (a, b) {
        (DerivedDeclarator::Pointer(x), DerivedDeclarator::Pointer(y)) => {
            if x.len() != y.len() {
                return false;
            }
            let mut i: usize = 0;
            while i < x.len()
                invariant
                    x@.len() == y@.len(),
                    i <= x@.len(),
                    forall|j: int| 0 <= j < i ==> pointer_qualifier_equiv(#[trigger] x@[j], y@[j]),
                decreases x@.len() - i,
            {
                let ok = match (&x[i], &y[i]) {
                    (PointerQualifier::TypeQualifier(p), PointerQualifier::TypeQualifier(q)) => qualifier_is_equiv(p, q),
                    _ => false,
                };
                if !ok {
                    return false;
                }
                i = i + 1;
            }
            true
        },
        (DerivedDeclarator::Array(x), DerivedDeclarator::Array(y)) => qualifiers_are_equiv(
            &x.qualifiers,
            &y.qualifiers,
        ) && size_is_equiv(&x.size, &y.size),
        (DerivedDeclarator::Function(x), DerivedDeclarator::Function(y)) => {
            if x.parameters.len() != y.parameters.len() {
                return false;
            }
            let mut i: usize = 0;
            while i < x.parameters.len()
                invariant
                    x.parameters@.len() == y.parameters@.len(),
                    i <= x.parameters@.len(),
                    forall|j: int| 0 <= j < i ==> parameter_equiv(#[trigger] x.parameters@[j], y.parameters@[j]),
                decreases x.parameters@.len() - i,
            {
                proof {
                    assert(decreases_to!(*a => *x));
                    assert(decreases_to!(*x => x.parameters));
                    assert(decreases_to!(x.parameters => x.parameters@));
                    assert(decreases_to!(x.parameters@ => x.parameters@[i as int]));
                }
                if !parameter_is_equiv(&x.parameters[i], &y.parameters[i]) {
                    return false;
                }
                i = i + 1;
            }
            true
        },
        _ => false,
    }
}

/// Whether two parameters are equivalent.
#[verifier::loop_isolation(false)]
fn parameter_is_equiv(a: &ParameterDeclaration, b: &ParameterDeclaration) -> (r: bool)
    ensures
        r == parameter_equiv(*a, *b),
    decreases a,
{
    if a.specifiers.len() != b.specifiers.len() {
        return false;
    }
    let mut i: usize = 0;
    while i < a.specifiers.len()
        invariant
            a.specifiers@.len() == b.specifiers@.len(),
            i <= a.specifiers@.len(),
            forall|j: int| 0 <= j < i ==> specifier_equiv(#[trigger] a.specifiers@[j], b.specifiers@[j]),
        decreases a.specifiers@.len() - i,
    {
        proof {
            assert(decreases_to!(*a => a.specifiers));
            assert(decreases_to!(a.specifiers => a.specifiers@));
            assert(decreases_to!(a.specifiers@ => a.specifiers@[i as int]));
        }
        if !specifier_is_equiv(&a.specifiers[i], &b.specifiers[i]) {
            return false;
        }
        i = i + 1;
    }
    proof {
        assert(decreases_to!(*a => a.declarator));
    }
    opt_declarator_is_equiv(&a.declarator, &b.declarator)
}

/// Whether two declaration specifiers are equivalent.
fn specifier_is_equiv(a: &DeclarationSpecifier, b: &DeclarationSpecifier) -> (r: bool)
    ensures
        r == specifier_equiv(*a, *b),
    decreases a,
{
    match (a, b) {
        (DeclarationSpecifier::StorageClass(x), DeclarationSpecifier::StorageClass(y)) => match (x, y) {
            (StorageClassSpecifier::Typedef, StorageClassSpecifier::Typedef) => true,
            _ => false,
        },
        (DeclarationSpecifier::TypeSpecifier(x), DeclarationSpecifier::TypeSpecifier(y)) => type_specifier_is_equiv(x, y),
        (DeclarationSpecifier::TypeQualifier(x), DeclarationSpecifier::TypeQualifier(y)) => qualifier_is_equiv(x, y),
        _ => false,
    }
}

/// Whether two type specifiers are equivalent.
fn type_specifier_is_equiv(a: &TypeSpecifier, b: &TypeSpecifier) -> (r: bool)
    ensures
        r == type_specifier_equiv(*a, *b),
    decreases a,
{
    match (a, b) {
        (TypeSpecifier::Void, TypeSpecifier::Void) => true,
        (TypeSpecifier::Char, TypeSpecifier::Char) => true,
        (TypeSpecifier::Short, TypeSpecifier::Short) => true,
        (TypeSpecifier::Int, TypeSpecifier::Int) => true,
        (TypeSpecifier::Long, TypeSpecifier::Long) => true,
        (TypeSpecifier::Float, TypeSpecifier::Float) => true,
        (TypeSpecifier::Double, TypeSpecifier::Double) => true,
        (TypeSpecifier::Signed, TypeSpecifier::Signed) => true,
        (TypeSpecifier::Unsigned, TypeSpecifier::Unsigned) => true,
        (TypeSpecifier::Bool, TypeSpecifier::Bool) => true,
        (TypeSpecifier::Struct(x), TypeSpecifier::Struct(y)) => struct_type_is_equiv(x, y),
        (TypeSpecifier::TypedefName(x), TypeSpecifier::TypedefName(y)) => *x == *y,
        _ => false,
    }
}

/// Whether two struct types are equivalent.
#[verifier::loop_isolation(false)]
fn struct_type_is_equiv(a: &StructType, b: &StructType) -> (r: bool)
    ensures
        r == struct_type_equiv(*a, *b),
    decreases a,
{
    if !(a.kind == b.kind) || !names_are_same(&a.identifier, &b.identifier) {
        return false;
    }
    match (&a.declarations, &b.declarations) {
        (Some(x), Some(y)) => {
            if x.len() != y.len() {
                return false;
            }
            let mut i: usize = 0;
            while i < x.len()
                invariant
                    a.declarations == Some(*x),
                    x@.len() == y@.len(),
                    i <= x@.len(),
                    forall|j: int| 0 <= j < i ==> struct_declaration_equiv(#[trigger] x@[j], y@[j]),
                decreases x@.len() - i,
            {
                proof {
                    assert(decreases_to!(*a => a.declarations));
                    assert(decreases_to!(a.declarations => *x));
                    assert(decreases_to!(*x => x@));
                    assert(decreases_to!(x@ => x@[i as int]));
                }
                if !struct_declaration_is_equiv(&x[i], &y[i]) {
                    return false;
                }
                i = i + 1;
            }
            true
        },
        (None, None) => true,
        _ => false,
    }
}

/// Whether two declarations in a struct are equivalent.
#[verifier::loop_isolation(false)]
fn struct_declaration_is_equiv(a: &StructDeclaration, b: &StructDeclaration) -> (r: bool)
    ensures
        r == struct_declaration_equiv(*a, *b),
    decreases a,
{
    match (a, b) {
        (StructDeclaration::Field(x), StructDeclaration::Field(y)) => {
            if x.specifiers.len() != y.specifiers.len() || x.declarators.len() != y.declarators.len() {
                return false;
            }
            let mut i: usize = 0;
            while i < x.specifiers.len()
                invariant
                    x.specifiers@.len() == y.specifiers@.len(),
                    i <= x.specifiers@.len(),
                    forall|j: int| 0 <= j < i ==> specifier_qualifier_equiv(#[trigger] x.specifiers@[j], y.specifiers@[j]),
                decreases x.specifiers@.len() - i,
            {
                proof {
                    assert(decreases_to!(*a => *x));
                    assert(decreases_to!(*x => x.specifiers));
                    assert(decreases_to!(x.specifiers => x.specifiers@));
                    assert(decreases_to!(x.specifiers@ => x.specifiers@[i as int]));
                }
                let ok = match (&x.specifiers[i], &y.specifiers[i]) {
                    (SpecifierQualifier::TypeSpecifier(p), SpecifierQualifier::TypeSpecifier(q)) => type_specifier_is_equiv(p, q),
                    (SpecifierQualifier::TypeQualifier(p), SpecifierQualifier::TypeQualifier(q)) => qualifier_is_equiv(p, q),
                    _ => false,
                };
                if !ok {
                    return false;
                }
                i = i + 1;
            }
            let mut k: usize = 0;
            while k < x.declarators.len()
                invariant
                    x.specifiers@.len() == y.specifiers@.len(),
                    forall|j: int|
                        0 <= j < x.specifiers@.len() ==> specifier_qualifier_equiv(#[trigger] x.specifiers@[j], y.specifiers@[j]),
                    x.declarators@.len() == y.declarators@.len(),
                    k <= x.declarators@.len(),
                    forall|j: int| 0 <= j < k ==> struct_declarator_equiv(#[trigger] x.declarators@[j], y.declarators@[j]),
                decreases x.declarators@.len() - k,
            {
                proof {
                    assert(decreases_to!(*a => *x));
                    assert(decreases_to!(*x => x.declarators));
                    assert(decreases_to!(x.declarators => x.declarators@));
                    assert(decreases_to!(x.declarators@ => x.declarators@[k as int]));
                    assert(decreases_to!(x.declarators@[k as int] => x.declarators@[k as int].declarator));
                }
                if !opt_declarator_is_equiv(&x.declarators[k].declarator, &y.declarators[k].declarator) {
                    return false;
                }
                k = k + 1;
            }
            true
        },
        _ => false,
    }
}

impl Declaration {
    /// Whether two declarations are equivalent (see `declaration_equiv`).
    pub fn is_equiv(&self, other: &Declaration) -> (r: bool)
        ensures
            r == declaration_equiv(*self, *other),
    {
        if self.specifiers.len() != other.specifiers.len() || self.declarators.len() != other.declarators.len() {
            return false;
        }
        let mut i: usize = 0;
        while i < self.specifiers.len()
            invariant
                self.specifiers@.len() == other.specifiers@.len(),
                i <= self.specifiers@.len(),
                forall|j: int| 0 <= j < i ==> specifier_equiv(#[trigger] self.specifiers@[j], other.specifiers@[j]),
            decreases self.specifiers@.len() - i,
        {
            if !specifier_is_equiv(&self.specifiers[i], &other.specifiers[i]) {
                return false;
            }
            i = i + 1;
        }
        let mut k: usize = 0;
        while k < self.declarators.len()
            invariant
                self.specifiers@.len() == other.specifiers@.len(),
                forall|j: int|
                    0 <= j < self.specifiers@.len() ==> specifier_equiv(#[trigger] self.specifiers@[j], other.specifiers@[j]),
                self.declarators@.len() == other.declarators@.len(),
                k <= self.declarators@.len(),
                forall|j: int|
                    0 <= j < k ==> init_declarator_equiv(#[trigger] self.declarators@[j], other.declarators@[j]),
            decreases self.declarators@.len() - k,
        {
            let x = &self.declarators[k];
            let y = &other.declarators[k];
            if !x.declarator.is_equiv(&y.declarator) {
                return false;
            }
            let same_init = match (&x.initializer, &y.initializer) {
                (Some(p), Some(q)) => p.equals(q),
                (None, None) => true,
                _ => false,
            };
            if !same_init {
                return false;
            }
            k = k + 1;
        }
        true
    }
}


/// Equivalent declarators are so the other way round.
proof fn lemma_declarator_flip(a: Declarator, b: Declarator)
    requires
        declarator_equiv(a, b),
    ensures
        declarator_equiv(b, a),
    decreases a,
{
    lemma_kind_flip(a.kind, b.kind);
    assert forall|i: int| 0 <= i < b.derived@.len() implies derived_equiv(#[trigger] b.derived@[i], a.derived@[i]) by {
        assert(decreases_to!(a => a.derived));
        assert(decreases_to!(a.derived => a.derived@));
        assert(decreases_to!(a.derived@ => a.derived@[i]));
        lemma_derived_flip(a.derived@[i], b.derived@[i]);
    }
}

proof fn lemma_opt_declarator_flip(a: Option<Declarator>, b: Option<Declarator>)
    requires
        opt_declarator_equiv(a, b),
    ensures
        opt_declarator_equiv(b, a),
    decreases a,
{
    if let (Some(x), Some(y)) = (a, b) {
        lemma_declarator_flip(x, y);
    }
}

proof fn lemma_kind_flip(a: DeclaratorKind, b: DeclaratorKind)
    requires
        kind_equiv(a, b),
    ensures
        kind_equiv(b, a),
    decreases a,
{
    if let (DeclaratorKind::Declarator(x), DeclaratorKind::Declarator(y)) = (a, b) {
        lemma_declarator_flip(*x, *y);
    }
}

proof fn lemma_derived_flip(a: DerivedDeclarator, b: DerivedDeclarator)
    requires
        derived_equiv(a, b),
    ensures
        derived_equiv(b, a),
    decreases a,
{
    match (a, b) {
        (DerivedDeclarator::Pointer(x), DerivedDeclarator::Pointer(y)) => {
            assert forall|i: int| 0 <= i < y@.len() implies pointer_qualifier_equiv(#[trigger] y@[i], x@[i]) by {
                assert(pointer_qualifier_equiv(x@[i], y@[i]));
            }
        },
        (DerivedDeclarator::Array(x), DerivedDeclarator::Array(y)) => {
            assert forall|i: int| 0 <= i < y.qualifiers@.len() implies qualifier_equiv(
                #[trigger] y.qualifiers@[i],
                x.qualifiers@[i],
            ) by {
                assert(qualifier_equiv(x.qualifiers@[i], y.qualifiers@[i]));
            }
            lemma_size_flip(x.size, y.size);
        },
        (DerivedDeclarator::Function(x), DerivedDeclarator::Function(y)) => {
            assert forall|i: int| 0 <= i < y.parameters@.len() implies parameter_equiv(
                #[trigger] y.parameters@[i],
                x.parameters@[i],
            ) by {
                assert(decreases_to!(a => x));
                assert(decreases_to!(x => x.parameters));
                assert(decreases_to!(x.parameters => x.parameters@));
                assert(decreases_to!(x.parameters@ => x.parameters@[i]));
                lemma_parameter_flip(x.parameters@[i], y.parameters@[i]);
            }
        },
        _ => {},
    }
}

proof fn lemma_size_flip(a: ArraySize, b: ArraySize)
    requires
        size_equiv(a, b),
    ensures
        size_equiv(b, a),
{
    match (a, b) {
        (ArraySize::VariableExpression(x), ArraySize::VariableExpression(y)) => lemma_expression_flip(x, y),
        (ArraySize::StaticExpression(x), ArraySize::StaticExpression(y)) => lemma_expression_flip(x, y),
        _ => {},
    }
}

proof fn lemma_expression_flip(a: Expression, b: Expression)
    requires
        expression_same(a, b),
    ensures
        expression_same(b, a),
    decreases a,
{
    if let (Expression::UnaryOperator { operand: x, .. }, Expression::UnaryOperator { operand: y, .. }) = (a, b) {
        lemma_expression_flip(*x, *y);
    }
}

proof fn lemma_parameter_flip(a: ParameterDeclaration, b: ParameterDeclaration)
    requires
        parameter_equiv(a, b),
    ensures
        parameter_equiv(b, a),
    decreases a,
{
    assert forall|i: int| 0 <= i < b.specifiers@.len() implies specifier_equiv(#[trigger] b.specifiers@[i], a.specifiers@[i]) by {
        assert(decreases_to!(a => a.specifiers));
        assert(decreases_to!(a.specifiers => a.specifiers@));
        assert(decreases_to!(a.specifiers@ => a.specifiers@[i]));
        lemma_specifier_flip(a.specifiers@[i], b.specifiers@[i]);
    }
    lemma_opt_declarator_flip(a.declarator, b.declarator);
}

proof fn lemma_specifier_flip(a: DeclarationSpecifier, b: DeclarationSpecifier)
    requires
        specifier_equiv(a, b),
    ensures
        specifier_equiv(b, a),
    decreases a,
{
    if let (DeclarationSpecifier::TypeSpecifier(x), DeclarationSpecifier::TypeSpecifier(y)) = (a, b) {
        lemma_type_specifier_flip(x, y);
    }
}

proof fn lemma_type_specifier_flip(a: TypeSpecifier, b: TypeSpecifier)
    requires
        type_specifier_equiv(a, b),
    ensures
        type_specifier_equiv(b, a),
    decreases a,
{
    if let (TypeSpecifier::Struct(x), TypeSpecifier::Struct(y)) = (a, b) {
        lemma_struct_type_flip(x, y);
    }
}

proof fn lemma_struct_type_flip(a: StructType, b: StructType)
    requires
        struct_type_equiv(a, b),
    ensures
        struct_type_equiv(b, a),
    decreases a,
{
    if let (Some(x), Some(y)) = (a.declarations, b.declarations) {
        assert forall|i: int| 0 <= i < y@.len() implies struct_declaration_equiv(#[trigger] y@[i], x@[i]) by {
            assert(decreases_to!(a => a.declarations));
            assert(decreases_to!(a.declarations => x));
            assert(decreases_to!(x => x@));
            assert(decreases_to!(x@ => x@[i]));
            lemma_struct_declaration_flip(x@[i], y@[i]);
        }
    }
}

proof fn lemma_struct_declaration_flip(a: StructDeclaration, b: StructDeclaration)
    requires
        struct_declaration_equiv(a, b),
    ensures
        struct_declaration_equiv(b, a),
    decreases a,
{
    if let (StructDeclaration::Field(x), StructDeclaration::Field(y)) = (a, b) {
        assert forall|i: int| 0 <= i < y.specifiers@.len() implies specifier_qualifier_equiv(
            #[trigger] y.specifiers@[i],
            x.specifiers@[i],
        ) by {
            assert(decreases_to!(a => x));
            assert(decreases_to!(x => x.specifiers));
            assert(decreases_to!(x.specifiers => x.specifiers@));
            assert(decreases_to!(x.specifiers@ => x.specifiers@[i]));
            lemma_specifier_qualifier_flip(x.specifiers@[i], y.specifiers@[i]);
        }
        assert forall|i: int| 0 <= i < y.declarators@.len() implies struct_declarator_equiv(
            #[trigger] y.declarators@[i],
            x.declarators@[i],
        ) by {
            assert(decreases_to!(a => x));
            assert(decreases_to!(x => x.declarators));
            assert(decreases_to!(x.declarators => x.declarators@));
            assert(decreases_to!(x.declarators@ => x.declarators@[i]));
            assert(decreases_to!(x.declarators@[i] => x.declarators@[i].declarator));
            lemma_opt_declarator_flip(x.declarators@[i].declarator, y.declarators@[i].declarator);
        }
    }
}

proof fn lemma_specifier_qualifier_flip(a: SpecifierQualifier, b: SpecifierQualifier)
    requires
        specifier_qualifier_equiv(a, b),
    ensures
        specifier_qualifier_equiv(b, a),
    decreases a,
{
    if let (SpecifierQualifier::TypeSpecifier(x), SpecifierQualifier::TypeSpecifier(y)) = (a, b) {
        lemma_type_specifier_flip(x, y);
    }
}

proof fn lemma_initializer_flip(a: super::ast::InitializerModel, b: super::ast::InitializerModel)
    requires
        initializer_same(a, b),
    ensures
        initializer_same(b, a),
    decreases a,
{
    match (a, b) {
        (super::ast::InitializerModel::Expression(x), super::ast::InitializerModel::Expression(y)) => {
            lemma_expression_flip(x, y);
        },
        (super::ast::InitializerModel::List(xs), super::ast::InitializerModel::List(ys)) => {
            lemma_initializers_flip(xs, ys);
        },
        _ => {},
    }
}

proof fn lemma_initializers_flip(xs: Seq<super::ast::InitializerModel>, ys: Seq<super::ast::InitializerModel>)
    requires
        super::ast::initializers_same(xs, ys),
    ensures
        super::ast::initializers_same(ys, xs),
    decreases xs,
{
    if xs.len() > 0 && ys.len() > 0 {
        lemma_initializer_flip(xs[0], ys[0]);
        lemma_initializers_flip(xs.subrange(1, xs.len() as int), ys.subrange(1, ys.len() as int));
    }
}

/// Equivalence of declarations is symmetric: one declaration is equivalent to another exactly
/// when that one is equivalent to it.
pub proof fn lemma_declaration_equiv_symmetric(a: Declaration, b: Declaration)
    ensures
        declaration_equiv(a, b) == declaration_equiv(b, a),
{
    if declaration_equiv(a, b) {
        lemma_declaration_flip(a, b);
    }
    if declaration_equiv(b, a) {
        lemma_declaration_flip(b, a);
    }
}

proof fn lemma_declaration_flip(a: Declaration, b: Declaration)
    requires
        declaration_equiv(a, b),
    ensures
        declaration_equiv(b, a),
{
    assert forall|i: int| 0 <= i < b.specifiers@.len() implies specifier_equiv(#[trigger] b.specifiers@[i], a.specifiers@[i]) by {
        lemma_specifier_flip(a.specifiers@[i], b.specifiers@[i]);
    }
    assert forall|i: int| 0 <= i < b.declarators@.len() implies init_declarator_equiv(
        #[trigger] b.declarators@[i],
        a.declarators@[i],
    ) by {
        let x = a.declarators@[i];
        let y = b.declarators@[i];
        assert(init_declarator_equiv(x, y));
        lemma_declarator_flip(x.declarator, y.declarator);
        if let (Some(p), Some(q)) = (x.initializer, y.initializer) {
            lemma_initializer_flip(p@, q@);
        }
    }
}


/// Whether a declaration is written only with what equivalence compares: `typedef` as its only
/// storage class, `const` as its only qualifier, supported type specifiers, struct types whose
/// members are fields, and pointer, array and parameter-list declarators.
pub open spec fn declaration_plain(d: Declaration) -> bool {
    &&& forall|i: int| 0 <= i < d.specifiers@.len() ==> specifier_plain(#[trigger] d.specifiers@[i])
    &&& forall|i: int| 0 <= i < d.declarators@.len() ==> declarator_plain(#[trigger] d.declarators@[i].declarator)
}

/// Whether a declaration specifier is one that equivalence compares.
pub open spec fn specifier_plain(s: DeclarationSpecifier) -> bool
    decreases s,
{
    match s {
        DeclarationSpecifier::StorageClass(x) => x is Typedef,
        DeclarationSpecifier::TypeSpecifier(x) => type_specifier_plain(x),
        DeclarationSpecifier::TypeQualifier(x) => x is Const,
        DeclarationSpecifier::Other => false,
    }
}

/// Whether a type specifier is one that equivalence compares.
pub open spec fn type_specifier_plain(t: TypeSpecifier) -> bool
    decreases t,
{
    match t {
        TypeSpecifier::Other => false,
        TypeSpecifier::Struct(x) => struct_type_plain(x),
        _ => true,
    }
}

/// Whether the members of a struct type are fields written only with what equivalence
/// compares.
pub open spec fn struct_type_plain(t: StructType) -> bool
    decreases t,
{
    match t.declarations {
        Some(ds) => forall|i: int| 0 <= i < ds@.len() ==> struct_declaration_plain(#[trigger] ds@[i]),
        None => true,
    }
}

/// Whether a member of a struct type is a field written only with what equivalence compares.
pub open spec fn struct_declaration_plain(d: StructDeclaration) -> bool
    decreases d,
{
    match d {
        StructDeclaration::Field(f) => {
            &&& forall|i: int| 0 <= i < f.specifiers@.len() ==> specifier_qualifier_plain(#[trigger] f.specifiers@[i])
            &&& forall|i: int| 0 <= i < f.declarators@.len() ==> opt_declarator_plain(#[trigger] f.declarators@[i].declarator)
        },
        StructDeclaration::StaticAssert => false,
    }
}

/// Whether a specifier or qualifier of a field is one that equivalence compares.
pub open spec fn specifier_qualifier_plain(s: SpecifierQualifier) -> bool
    decreases s,
{
    match s {
        SpecifierQualifier::TypeSpecifier(x) => type_specifier_plain(x),
        SpecifierQualifier::TypeQualifier(x) => x is Const,
        SpecifierQualifier::Extension => false,
    }
}

/// Whether an optional declarator is absent or written only with what equivalence compares.
pub open spec fn opt_declarator_plain(d: Option<Declarator>) -> bool
    decreases d,
{
    match d {
        Some(x) => declarator_plain(x),
        None => true,
    }
}

/// Whether a declarator is written only with what equivalence compares.
pub open spec fn declarator_plain(d: Declarator) -> bool
    decreases d,
{
    &&& match d.kind {
        DeclaratorKind::Declarator(x) => declarator_plain(*x),
        _ => true,
    }
    &&& forall|i: int| 0 <= i < d.derived@.len() ==> derived_plain(#[trigger] d.derived@[i])
}

/// Whether a derived declarator is a pointer or an array with `const` qualifiers only, or a
/// parameter list of parameters written only with what equivalence compares.
pub open spec fn derived_plain(d: DerivedDeclarator) -> bool
    decreases d,
{
    match d {
        DerivedDeclarator::Pointer(qs) => forall|i: int|
            0 <= i < qs@.len() ==> (#[trigger] qs@[i]) matches PointerQualifier::TypeQualifier(TypeQualifier::Const),
        DerivedDeclarator::Array(a) => forall|i: int| 0 <= i < a.qualifiers@.len() ==> (#[trigger] a.qualifiers@[i]) is Const,
        DerivedDeclarator::Function(f) => forall|i: int|
            0 <= i < f.parameters@.len() ==> parameter_plain(#[trigger] f.parameters@[i]),
        DerivedDeclarator::KRFunction(_) => false,
    }
}

/// Whether a parameter is written only with what equivalence compares.
pub open spec fn parameter_plain(p: ParameterDeclaration) -> bool
    decreases p,
{
    &&& forall|i: int| 0 <= i < p.specifiers@.len() ==> specifier_plain(#[trigger] p.specifiers@[i])
    &&& opt_declarator_plain(p.declarator)
}

/// Equivalence of declarations is reflexive on the declarations written only with what it
/// compares: such a declaration is equivalent to itself.
pub proof fn lemma_declaration_equiv_reflexive(a: Declaration)
    requires
        declaration_plain(a),
    ensures
        declaration_equiv(a, a),
{
    assert forall|i: int| 0 <= i < a.specifiers@.len() implies specifier_equiv(#[trigger] a.specifiers@[i], a.specifiers@[i]) by {
        lemma_specifier_refl(a.specifiers@[i]);
    }
    assert forall|i: int| 0 <= i < a.declarators@.len() implies init_declarator_equiv(
        #[trigger] a.declarators@[i],
        a.declarators@[i],
    ) by {
        let x = a.declarators@[i];
        lemma_declarator_refl(x.declarator);
        if let Some(p) = x.initializer {
            super::ast::lemma_initializer_same_reflexive(p@);
        }
    }
}

proof fn lemma_specifier_refl(a: DeclarationSpecifier)
    requires
        specifier_plain(a),
    ensures
        specifier_equiv(a, a),
    decreases a,
{
    if let DeclarationSpecifier::TypeSpecifier(x) = a {
        lemma_type_specifier_refl(x);
    }
}

proof fn lemma_type_specifier_refl(a: TypeSpecifier)
    requires
        type_specifier_plain(a),
    ensures
        type_specifier_equiv(a, a),
    decreases a,
{
    if let TypeSpecifier::Struct(x) = a {
        lemma_struct_type_refl(x);
    }
}

proof fn lemma_struct_type_refl(a: StructType)
    requires
        struct_type_plain(a),
    ensures
        struct_type_equiv(a, a),
    decreases a,
{
    if let Some(x) = a.declarations {
        assert forall|i: int| 0 <= i < x@.len() implies struct_declaration_equiv(#[trigger] x@[i], x@[i]) by {
            assert(decreases_to!(a => a.declarations));
            assert(decreases_to!(a.declarations => x));
            assert(decreases_to!(x => x@));
            assert(decreases_to!(x@ => x@[i]));
            lemma_struct_declaration_refl(x@[i]);
        }
    }
}

proof fn lemma_struct_declaration_refl(a: StructDeclaration)
    requires
        struct_declaration_plain(a),
    ensures
        struct_declaration_equiv(a, a),
    decreases a,
{
    if let StructDeclaration::Field(x) = a {
        assert forall|i: int| 0 <= i < x.specifiers@.len() implies specifier_qualifier_equiv(
            #[trigger] x.specifiers@[i],
            x.specifiers@[i],
        ) by {
            assert(decreases_to!(a => x));
            assert(decreases_to!(x => x.specifiers));
            assert(decreases_to!(x.specifiers => x.specifiers@));
            assert(decreases_to!(x.specifiers@ => x.specifiers@[i]));
            lemma_specifier_qualifier_refl(x.specifiers@[i]);
        }
        assert forall|i: int| 0 <= i < x.declarators@.len() implies struct_declarator_equiv(
            #[trigger] x.declarators@[i],
            x.declarators@[i],
        ) by {
            assert(decreases_to!(a => x));
            assert(decreases_to!(x => x.declarators));
            assert(decreases_to!(x.declarators => x.declarators@));
            assert(decreases_to!(x.declarators@ => x.declarators@[i]));
            assert(decreases_to!(x.declarators@[i] => x.declarators@[i].declarator));
            lemma_opt_declarator_refl(x.declarators@[i].declarator);
        }
    }
}

proof fn lemma_specifier_qualifier_refl(a: SpecifierQualifier)
    requires
        specifier_qualifier_plain(a),
    ensures
        specifier_qualifier_equiv(a, a),
    decreases a,
{
    if let SpecifierQualifier::TypeSpecifier(x) = a {
        lemma_type_specifier_refl(x);
    }
}

proof fn lemma_opt_declarator_refl(a: Option<Declarator>)
    requires
        opt_declarator_plain(a),
    ensures
        opt_declarator_equiv(a, a),
    decreases a,
{
    if let Some(x) = a {
        lemma_declarator_refl(x);
    }
}

proof fn lemma_declarator_refl(a: Declarator)
    requires
        declarator_plain(a),
    ensures
        declarator_equiv(a, a),
    decreases a,
{
    if let DeclaratorKind::Declarator(x) = a.kind {
        lemma_declarator_refl(*x);
    }
    assert forall|i: int| 0 <= i < a.derived@.len() implies derived_equiv(#[trigger] a.derived@[i], a.derived@[i]) by {
        assert(decreases_to!(a => a.derived));
        assert(decreases_to!(a.derived => a.derived@));
        assert(decreases_to!(a.derived@ => a.derived@[i]));
        lemma_derived_refl(a.derived@[i]);
    }
}

proof fn lemma_derived_refl(a: DerivedDeclarator)
    requires
        derived_plain(a),
    ensures
        derived_equiv(a, a),
    decreases a,
{
    match a {
        DerivedDeclarator::Pointer(x) => {
            assert forall|i: int| 0 <= i < x@.len() implies pointer_qualifier_equiv(#[trigger] x@[i], x@[i]) by {
                assert(x@[i] matches PointerQualifier::TypeQualifier(TypeQualifier::Const));
            }
        },
        DerivedDeclarator::Array(x) => {
            assert forall|i: int| 0 <= i < x.qualifiers@.len() implies qualifier_equiv(
                #[trigger] x.qualifiers@[i],
                x.qualifiers@[i],
            ) by {
                assert(x.qualifiers@[i] is Const);
            }
            match x.size {
                ArraySize::VariableExpression(e) => super::ast::lemma_expression_same_reflexive(e),
                ArraySize::StaticExpression(e) => super::ast::lemma_expression_same_reflexive(e),
                _ => {},
            }
        },
        DerivedDeclarator::Function(x) => {
            assert forall|i: int| 0 <= i < x.parameters@.len() implies parameter_equiv(
                #[trigger] x.parameters@[i],
                x.parameters@[i],
            ) by {
                assert(decreases_to!(a => x));
                assert(decreases_to!(x => x.parameters));
                assert(decreases_to!(x.parameters => x.parameters@));
                assert(decreases_to!(x.parameters@ => x.parameters@[i]));
                lemma_parameter_refl(x.parameters@[i]);
            }
        },
        _ => {},
    }
}

proof fn lemma_parameter_refl(a: ParameterDeclaration)
    requires
        parameter_plain(a),
    ensures
        parameter_equiv(a, a),
    decreases a,
{
    assert forall|i: int| 0 <= i < a.specifiers@.len() implies specifier_equiv(#[trigger] a.specifiers@[i], a.specifiers@[i]) by {
        assert(decreases_to!(a => a.specifiers));
        assert(decreases_to!(a.specifiers => a.specifiers@));
        assert(decreases_to!(a.specifiers@ => a.specifiers@[i]));
        lemma_specifier_refl(a.specifiers@[i]);
    }
    lemma_opt_declarator_refl(a.declarator);
}

/// Equivalent type specifiers are the same specifier: the same keyword (so `signed` is never
/// equivalent to `unsigned`, nor `int` to `long`), the same type name, or struct types of the
/// same kind and tag; and an unsupported specifier is equivalent to none.
pub proof fn lemma_type_specifier_equiv_same_keyword(a: TypeSpecifier, b: TypeSpecifier)
    requires
        type_specifier_equiv(a, b),
    ensures
        !(a is Struct) && !(a is TypedefName) ==> a == b,
        !(a is Other) && !(b is Other),
        a matches TypeSpecifier::TypedefName(x) ==> (b matches TypeSpecifier::TypedefName(y) && x@ == y@),
        a matches TypeSpecifier::Struct(x) ==> (b matches TypeSpecifier::Struct(y) && x.kind == y.kind
            && names_same(x.identifier, y.identifier)),
{
}

/// Equivalent declaration specifiers are of the same kind: storage classes that are both
/// `typedef`, qualifiers that are both `const`, or type specifiers that are the same specifier
/// (see `lemma_type_specifier_equiv_same_keyword`).
pub proof fn lemma_specifier_equiv_same_kind(a: DeclarationSpecifier, b: DeclarationSpecifier)
    requires
        specifier_equiv(a, b),
    ensures
        a matches DeclarationSpecifier::StorageClass(x) ==> (x is Typedef
            && (b matches DeclarationSpecifier::StorageClass(y) && y is Typedef)),
        a matches DeclarationSpecifier::TypeQualifier(x) ==> (x is Const
            && (b matches DeclarationSpecifier::TypeQualifier(y) && y is Const)),
        a matches DeclarationSpecifier::TypeSpecifier(x) ==> (b matches DeclarationSpecifier::TypeSpecifier(y)
            && type_specifier_equiv(x, y)),
        !(a is Other),
{
}

} // verus!
