use lib::c::ast::{
    Constant as AstConstant, Declaration, DeclarationSpecifier, Declarator, DeclaratorKind, DerivedDeclarator,
    Expression, FunctionDeclarator, InitDeclarator, Initializer, Integer, IntegerBase, IntegerSize,
    ParameterDeclaration, PointerQualifier, StructKind, StructType, TypeQualifier, TypeSpecifier,
};

fn int_expr(n: &str) -> Expression {
    Expression::Constant(AstConstant::Integer(Integer {
        base: IntegerBase::Decimal,
        number: n.to_string(),
        size: IntegerSize::Int,
        unsigned: false,
    }))
}

/// `const int *name = 1;` with a parameter list `(struct s)` when `function` is set.
fn declaration(name: &str, qualifier: TypeQualifier, function: bool) -> Declaration {
    let mut derived = vec![DerivedDeclarator::Pointer(vec![PointerQualifier::TypeQualifier(TypeQualifier::Const)])];
    if function {
        derived.push(DerivedDeclarator::Function(FunctionDeclarator {
            parameters: vec![ParameterDeclaration {
                specifiers: vec![DeclarationSpecifier::TypeSpecifier(TypeSpecifier::Struct(StructType {
                    kind: StructKind::Struct,
                    identifier: Some("s".to_string()),
                    declarations: None,
                }))],
                declarator: None,
            }],
        }));
    }
    Declaration {
        specifiers: vec![
            DeclarationSpecifier::TypeQualifier(qualifier),
            DeclarationSpecifier::TypeSpecifier(TypeSpecifier::Int),
        ],
        declarators: vec![InitDeclarator {
            declarator: Declarator { kind: DeclaratorKind::Identifier(name.to_string()), derived },
            initializer: Some(Initializer::Expression(int_expr("1"))),
        }],
    }
}

#[test]
fn equivalent_declarations() {
    let a = declaration("x", TypeQualifier::Const, true);
    assert!(a.is_equiv(&declaration("x", TypeQualifier::Const, true)));
    assert!(!a.is_equiv(&declaration("y", TypeQualifier::Const, true)));
    assert!(!a.is_equiv(&declaration("x", TypeQualifier::Const, false)));
    // an unsupported qualifier is never equivalent, not even to itself
    let b = declaration("x", TypeQualifier::Other, true);
    assert!(!b.is_equiv(&declaration("x", TypeQualifier::Other, true)));
}
