use lib::c::ast::{
    ArrayDeclarator, ArraySize, Constant as AstConstant, DeclarationSpecifier, Declarator, DeclaratorKind,
    DerivedDeclarator, Expression, FloatFormat, FloatLiteral, FunctionDeclarator, Integer, IntegerBase,
    IntegerSize, ParameterDeclaration, PointerQualifier, SpecifierQualifier, StorageClassSpecifier,
    StructDeclaration, StructDeclarator, StructField, StructKind, StructType, TypeName, TypeQualifier,
    TypeSpecifier, UnaryOperator,
};
use lib::ir::dtype_ast::{
    constant_int_of_ast_constant, constant_int_of_expression, parse_u128_radix, BaseDtype,
};
use lib::ir::{Dtype, DtypeError};

fn message(e: DtypeError) -> String {
    match e {
        DtypeError::Misc { message } => message,
    }
}

fn decl_spec(ts: TypeSpecifier) -> DeclarationSpecifier {
    DeclarationSpecifier::TypeSpecifier(ts)
}

fn field_spec(ts: TypeSpecifier) -> SpecifierQualifier {
    SpecifierQualifier::TypeSpecifier(ts)
}

fn named(name: &str, derived: Vec<DerivedDeclarator>) -> Declarator {
    Declarator { kind: DeclaratorKind::Identifier(name.to_string()), derived }
}

fn integer(number: &str, base: IntegerBase) -> Integer {
    Integer { base, number: number.to_string(), size: IntegerSize::Int, unsigned: false }
}

fn int_expr(number: &str) -> Expression {
    Expression::Constant(AstConstant::Integer(integer(number, IntegerBase::Decimal)))
}

fn array_of(size: Expression) -> DerivedDeclarator {
    DerivedDeclarator::Array(ArrayDeclarator { qualifiers: vec![], size: ArraySize::VariableExpression(size) })
}

fn field(specifiers: Vec<SpecifierQualifier>, names: Vec<Declarator>) -> StructDeclaration {
    StructDeclaration::Field(StructField {
        specifiers,
        declarators: names.into_iter().map(|d| StructDeclarator { declarator: Some(d) }).collect(),
    })
}

fn specifiers_text(specifiers: Vec<DeclarationSpecifier>) -> Result<(String, bool), String> {
    Dtype::try_from_ast_declaration_specifiers(&specifiers)
        .map(|(d, is_typedef)| (d.to_string(), is_typedef))
        .map_err(message)
}

#[test]
fn scalar_specifiers() {
    assert_eq!(specifiers_text(vec![decl_spec(TypeSpecifier::Int)]), Ok(("i32".to_string(), false)));
    assert_eq!(
        specifiers_text(vec![
            DeclarationSpecifier::TypeQualifier(TypeQualifier::Const),
            decl_spec(TypeSpecifier::Unsigned),
            decl_spec(TypeSpecifier::Int),
        ]),
        Ok(("const u32".to_string(), false))
    );
    assert_eq!(specifiers_text(vec![decl_spec(TypeSpecifier::Unsigned)]), Ok(("u32".to_string(), false)));
    assert_eq!(
        specifiers_text(vec![decl_spec(TypeSpecifier::Long), decl_spec(TypeSpecifier::Long)]),
        Ok(("i64".to_string(), false))
    );
    assert_eq!(
        specifiers_text(vec![decl_spec(TypeSpecifier::Unsigned), decl_spec(TypeSpecifier::Char)]),
        Ok(("u8".to_string(), false))
    );
    assert_eq!(specifiers_text(vec![decl_spec(TypeSpecifier::Short)]), Ok(("i16".to_string(), false)));
    assert_eq!(specifiers_text(vec![decl_spec(TypeSpecifier::Bool)]), Ok(("u1".to_string(), false)));
    assert_eq!(specifiers_text(vec![decl_spec(TypeSpecifier::Double)]), Ok(("f64".to_string(), false)));
    assert_eq!(specifiers_text(vec![decl_spec(TypeSpecifier::Void)]), Ok(("unit".to_string(), false)));
    assert_eq!(
        specifiers_text(vec![
            DeclarationSpecifier::StorageClass(StorageClassSpecifier::Typedef),
            decl_spec(TypeSpecifier::Int),
        ]),
        Ok(("i32".to_string(), true))
    );
    assert_eq!(
        specifiers_text(vec![
            DeclarationSpecifier::TypeQualifier(TypeQualifier::Const),
            decl_spec(TypeSpecifier::TypedefName("size_t".to_string())),
        ]),
        Ok(("const size_t".to_string(), false))
    );
}

#[test]
fn conflicting_specifiers() {
    assert_eq!(
        specifiers_text(vec![decl_spec(TypeSpecifier::Int), decl_spec(TypeSpecifier::Char)]),
        Err("two or more scalar types in declaration specifiers".to_string())
    );
    assert_eq!(
        specifiers_text(vec![decl_spec(TypeSpecifier::Signed), decl_spec(TypeSpecifier::Unsigned)]),
        Err("duplicate signed option".to_string())
    );
    assert_eq!(
        specifiers_text(vec![
            decl_spec(TypeSpecifier::Long),
            decl_spec(TypeSpecifier::Long),
            decl_spec(TypeSpecifier::Long),
        ]),
        Err("two or more size modifiers in declaration specifiers".to_string())
    );
    assert_eq!(
        specifiers_text(vec![decl_spec(TypeSpecifier::Short), decl_spec(TypeSpecifier::Long)]),
        Err("two or more size modifiers in declaration specifiers".to_string())
    );
    assert_eq!(
        specifiers_text(vec![decl_spec(TypeSpecifier::Unsigned), decl_spec(TypeSpecifier::Float)]),
        Err("`signed` and `unsigned` only be applied to `Dtype::Int`".to_string())
    );
    assert_eq!(
        specifiers_text(vec![
            decl_spec(TypeSpecifier::TypedefName("t".to_string())),
            decl_spec(TypeSpecifier::Int),
        ]),
        Err("`typedef` can only be used with `const`".to_string())
    );
    assert_eq!(
        specifiers_text(vec![
            decl_spec(TypeSpecifier::TypedefName("t".to_string())),
            decl_spec(TypeSpecifier::TypedefName("u".to_string())),
        ]),
        Err("two or more typedef names in declaration specifiers".to_string())
    );
}

#[test]
fn specifiers_stop_at_first_error() {
    let specifiers = vec![
        decl_spec(TypeSpecifier::Int),
        DeclarationSpecifier::TypeQualifier(TypeQualifier::Const),
        decl_spec(TypeSpecifier::Char),
        decl_spec(TypeSpecifier::Unsigned),
    ];
    let mut base = BaseDtype::new();
    let r = base.apply_declaration_specifiers(&specifiers);
    assert_eq!(message(r.unwrap_err()), "two or more scalar types in declaration specifiers");
    assert!(base.is_const);
    assert!(base.signed_option.is_none());
    assert!(matches!(base.scalar, Some(TypeSpecifier::Int)));
}

fn point_struct(name: Option<&str>) -> StructType {
    StructType {
        kind: StructKind::Struct,
        identifier: name.map(|n| n.to_string()),
        declarations: Some(vec![
            field(vec![field_spec(TypeSpecifier::Char)], vec![named("c", vec![])]),
            field(vec![field_spec(TypeSpecifier::Int)], vec![named("x", vec![]), named("y", vec![])]),
        ]),
    }
}

#[test]
fn struct_types() {
    let r = specifiers_text(vec![decl_spec(TypeSpecifier::Struct(point_struct(Some("P"))))]);
    assert_eq!(r, Ok(("struct P:<c:i8, x:i32, y:i32>".to_string(), false)));

    let declaration_only = StructType { kind: StructKind::Struct, identifier: Some("Q".to_string()), declarations: None };
    let r = specifiers_text(vec![
        DeclarationSpecifier::TypeQualifier(TypeQualifier::Const),
        decl_spec(TypeSpecifier::Struct(declaration_only)),
    ]);
    assert_eq!(r, Ok(("const struct Q".to_string(), false)));

    let r = specifiers_text(vec![
        decl_spec(TypeSpecifier::Struct(point_struct(Some("P")))),
        decl_spec(TypeSpecifier::Int),
    ]);
    assert_eq!(r, Err("`struct` can only be used with `const`".to_string()));
}

#[test]
fn anonymous_struct_fields() {
    // struct A { struct { int f; }; int g; }
    let inner = StructType {
        kind: StructKind::Struct,
        identifier: None,
        declarations: Some(vec![field(vec![field_spec(TypeSpecifier::Int)], vec![named("f", vec![])])]),
    };
    let outer = StructType {
        kind: StructKind::Struct,
        identifier: Some("A".to_string()),
        declarations: Some(vec![
            field(vec![field_spec(TypeSpecifier::Struct(inner))], vec![]),
            field(vec![field_spec(TypeSpecifier::Int)], vec![named("g", vec![])]),
        ]),
    };
    let r = specifiers_text(vec![decl_spec(TypeSpecifier::Struct(outer))]);
    assert_eq!(r, Ok(("struct A:<%anon:struct %anon:<f:i32>, g:i32>".to_string(), false)));

    // a field without declarator that is no anonymous struct declares nothing
    let lonely = field(vec![field_spec(TypeSpecifier::Int)], vec![]);
    let r = Dtype::try_from_ast_struct_declaration(&lonely);
    assert_eq!(message(r.unwrap_err()), "declaration does not declare anything");
}

#[test]
fn duplicate_field_names() {
    // struct D { int f; struct { char f; }; }
    let inner = StructType {
        kind: StructKind::Struct,
        identifier: None,
        declarations: Some(vec![field(vec![field_spec(TypeSpecifier::Char)], vec![named("f", vec![])])]),
    };
    let outer = StructType {
        kind: StructKind::Struct,
        identifier: Some("D".to_string()),
        declarations: Some(vec![
            field(vec![field_spec(TypeSpecifier::Int)], vec![named("f", vec![])]),
            field(vec![field_spec(TypeSpecifier::Struct(inner))], vec![]),
        ]),
    };
    let r = specifiers_text(vec![decl_spec(TypeSpecifier::Struct(outer))]);
    assert_eq!(r, Err("struct has duplicate field name".to_string()));

    let twice = StructType {
        kind: StructKind::Struct,
        identifier: Some("E".to_string()),
        declarations: Some(vec![field(
            vec![field_spec(TypeSpecifier::Int)],
            vec![named("a", vec![]), named("a", vec![])],
        )]),
    };
    let r = specifiers_text(vec![decl_spec(TypeSpecifier::Struct(twice))]);
    assert_eq!(r, Err("struct has duplicate field name".to_string()));
}

#[test]
fn declarators() {
    // const int *const p
    let decl = named(
        "p",
        vec![DerivedDeclarator::Pointer(vec![PointerQualifier::TypeQualifier(TypeQualifier::Const)])],
    );
    let base = Dtype::int_type().set_const(true);
    let r = base.with_ast_declarator(&decl).unwrap();
    assert_eq!(r.name.as_deref(), Some("p"));
    assert_eq!(r.inner.to_string(), "const i32*const");

    // int a[2][3]
    let decl = named("a", vec![array_of(int_expr("2")), array_of(int_expr("3"))]);
    let r = Dtype::int_type().with_ast_declarator(&decl).unwrap();
    assert_eq!(r.inner.to_string(), "[2 x [3 x i32]]");

    // int (*f)(void)
    let void_param = ParameterDeclaration { specifiers: vec![decl_spec(TypeSpecifier::Void)], declarator: None };
    let inner = named("f", vec![DerivedDeclarator::Pointer(vec![])]);
    let decl = Declarator {
        kind: DeclaratorKind::Declarator(Box::new(inner)),
        derived: vec![DerivedDeclarator::Function(FunctionDeclarator { parameters: vec![void_param] })],
    };
    let r = Dtype::int_type().with_ast_declarator(&decl).unwrap();
    assert_eq!(r.name.as_deref(), Some("f"));
    assert_eq!(r.inner.to_string(), "[ret:i32 params:()]*");

    // char g(int x, char y[4])
    let x = ParameterDeclaration { specifiers: vec![decl_spec(TypeSpecifier::Int)], declarator: Some(named("x", vec![])) };
    let y = ParameterDeclaration {
        specifiers: vec![decl_spec(TypeSpecifier::Char)],
        declarator: Some(named("y", vec![array_of(int_expr("4"))])),
    };
    let decl = named("g", vec![DerivedDeclarator::Function(FunctionDeclarator { parameters: vec![x, y] })]);
    let r = Dtype::char_type().with_ast_declarator(&decl).unwrap();
    assert_eq!(r.inner.to_string(), "[ret:i8 params:(i32, i8*)]");

    // int h()
    let decl = named("h", vec![DerivedDeclarator::KRFunction(0)]);
    let r = Dtype::int_type().with_ast_declarator(&decl).unwrap();
    assert_eq!(r.inner.to_string(), "[ret:i32 params:()]");

    // an abstract declarator names nothing
    let decl = Declarator { kind: DeclaratorKind::Abstract, derived: vec![DerivedDeclarator::Pointer(vec![])] };
    let r = Dtype::int_type().with_ast_declarator(&decl).unwrap();
    assert!(r.name.is_none());
    assert_eq!(r.inner.to_string(), "i32*");
}

#[test]
fn array_sizes() {
    let minus_one = Expression::UnaryOperator { operator: UnaryOperator::Minus, operand: Box::new(int_expr("1")) };
    let r = Dtype::int_type().with_ast_array_size(&ArraySize::VariableExpression(minus_one));
    assert_eq!(message(r.unwrap_err()), "declared as an array with a negative size");

    let plus_five = Expression::UnaryOperator { operator: UnaryOperator::Plus, operand: Box::new(int_expr("5")) };
    let r = Dtype::int_type().with_ast_array_size(&ArraySize::VariableExpression(plus_five)).unwrap();
    assert_eq!(r.to_string(), "[5 x i32]");

    let float = Expression::Constant(AstConstant::Float(FloatLiteral {
        number: "1.5".to_string(),
        hexadecimal: false,
        format: FloatFormat::Double,
    }));
    let r = Dtype::int_type().with_ast_array_size(&ArraySize::VariableExpression(float));
    assert_eq!(message(r.unwrap_err()), "expression is not an integer constant expression");

    // an unsigned size with the sign bit set is not negative
    let big = Expression::Constant(AstConstant::Integer(integer("ffffffff", IntegerBase::Hexadecimal)));
    let r = Dtype::char_type().with_ast_array_size(&ArraySize::VariableExpression(big)).unwrap();
    assert_eq!(r.to_string(), "[4294967295 x i8]");
}

#[test]
fn type_names_and_parameters() {
    // (unsigned long *)
    let tn = TypeName {
        specifiers: vec![field_spec(TypeSpecifier::Unsigned), field_spec(TypeSpecifier::Long)],
        declarator: Some(Declarator { kind: DeclaratorKind::Abstract, derived: vec![DerivedDeclarator::Pointer(vec![])] }),
    };
    assert_eq!(Dtype::try_from_type_name(&tn).unwrap().to_string(), "u64*");

    let tn = TypeName { specifiers: vec![field_spec(TypeSpecifier::Float)], declarator: None };
    assert_eq!(Dtype::try_from_type_name(&tn).unwrap().to_string(), "f32");

    let p = ParameterDeclaration {
        specifiers: vec![decl_spec(TypeSpecifier::Int)],
        declarator: Some(named("m", vec![array_of(int_expr("2")), array_of(int_expr("3"))])),
    };
    assert_eq!(Dtype::try_from_parameter_declaration(&p).unwrap().to_string(), "[3 x i32]*");
}

#[test]
fn base_dtype_conversion() {
    let specifiers = vec![
        DeclarationSpecifier::TypeQualifier(TypeQualifier::Const),
        decl_spec(TypeSpecifier::Char),
    ];
    let mut base = BaseDtype::new();
    base.apply_declaration_specifiers(&specifiers).unwrap();
    assert_eq!(Dtype::try_from_base_dtype(base).unwrap().to_string(), "const i8");
}

#[test]
fn integer_literals() {
    assert_eq!(parse_u128_radix(&"1234".to_string(), 10), Some(1234));
    assert_eq!(parse_u128_radix(&"+17".to_string(), 8), Some(15));
    assert_eq!(parse_u128_radix(&"fF".to_string(), 16), Some(255));
    assert_eq!(parse_u128_radix(&"".to_string(), 10), None);
    assert_eq!(parse_u128_radix(&"+".to_string(), 10), None);
    assert_eq!(parse_u128_radix(&"19".to_string(), 8), None);
    assert_eq!(parse_u128_radix(&"-1".to_string(), 10), None);
    assert_eq!(parse_u128_radix(&"340282366920938463463374607431768211455".to_string(), 10), Some(u128::MAX));
    assert_eq!(parse_u128_radix(&"340282366920938463463374607431768211456".to_string(), 10), None);

    assert_eq!(
        constant_int_of_ast_constant(&AstConstant::Integer(integer("2147483647", IntegerBase::Decimal))),
        Some((2147483647, 32, true))
    );
    assert_eq!(
        constant_int_of_ast_constant(&AstConstant::Integer(integer("80000000", IntegerBase::Hexadecimal))),
        Some((0x8000_0000, 32, false))
    );
    let long_unsigned = Integer { base: IntegerBase::Decimal, number: "7".to_string(), size: IntegerSize::Long, unsigned: true };
    assert_eq!(constant_int_of_ast_constant(&AstConstant::Integer(long_unsigned)), Some((7, 64, false)));
    assert_eq!(constant_int_of_ast_constant(&AstConstant::Character("A".to_string())), Some((65, 8, true)));

    let minus = Expression::UnaryOperator { operator: UnaryOperator::Minus, operand: Box::new(int_expr("3")) };
    assert_eq!(constant_int_of_expression(&minus), Ok(Some(((-3i128) as u128, 32, true))));
    let other = Expression::UnaryOperator { operator: UnaryOperator::Other, operand: Box::new(int_expr("3")) };
    assert_eq!(constant_int_of_expression(&other), Err(()));
    assert_eq!(constant_int_of_expression(&Expression::Other), Err(()));
}

#[test]
fn printed_numbers_parse_back() {
    for n in [0u128, 7, 10, 255, 4096, 12345678901234567890, u128::MAX] {
        assert_eq!(parse_u128_radix(&lib::utils::decimal_string(n), 10), Some(n));
        let mut s = String::new();
        lib::utils::push_hex(&mut s, n);
        assert_eq!(parse_u128_radix(&s, 16), Some(n));
    }
}
