use lib::c::ast::{
    ArrayDeclarator, ArraySize, Constant as AstConstant, Declaration as AstDeclaration, DeclarationSpecifier,
    Declarator, DeclaratorKind, DerivedDeclarator, Expression, FunctionDeclarator, InitDeclarator, Initializer,
    Integer, IntegerBase, IntegerSize, ParameterDeclaration, StorageClassSpecifier, StructDeclaration,
    StructDeclarator, StructField, StructKind, StructType, TypeSpecifier, SpecifierQualifier,
};
use lib::ir::{Declaration, DtypeError, HasDtype};
use lib::irgen::{name_of_declarator, name_of_params_from_function_declarator, Irgen, IrgenErrorMessage};

fn spec(ts: TypeSpecifier) -> DeclarationSpecifier {
    DeclarationSpecifier::TypeSpecifier(ts)
}

fn named(name: &str, derived: Vec<DerivedDeclarator>) -> Declarator {
    Declarator { kind: DeclaratorKind::Identifier(name.to_string()), derived }
}

fn int_expr(n: &str) -> Expression {
    Expression::Constant(AstConstant::Integer(Integer {
        base: IntegerBase::Decimal,
        number: n.to_string(),
        size: IntegerSize::Int,
        unsigned: false,
    }))
}

fn declare(specifiers: Vec<DeclarationSpecifier>, declarators: Vec<(Declarator, Option<Initializer>)>) -> AstDeclaration {
    AstDeclaration {
        specifiers,
        declarators: declarators
            .into_iter()
            .map(|(declarator, initializer)| InitDeclarator { declarator, initializer })
            .collect(),
    }
}

fn misc(m: IrgenErrorMessage) -> String {
    match m {
        IrgenErrorMessage::Misc { message } => message,
        other => panic!("unexpected {other:?}"),
    }
}

fn dtype_message(e: DtypeError) -> String {
    match e {
        DtypeError::Misc { message } => message,
    }
}

#[test]
fn variables_and_initializers() {
    let mut irgen = Irgen::new();
    let code = "int x = 1, y;".to_string();
    let d = declare(
        vec![spec(TypeSpecifier::Int)],
        vec![(named("x", vec![]), Some(Initializer::Expression(int_expr("1")))), (named("y", vec![]), None)],
    );
    irgen.add_declaration(&d, &code).unwrap();

    let array = DerivedDeclarator::Array(ArrayDeclarator {
        qualifiers: vec![],
        size: ArraySize::VariableExpression(int_expr("2")),
    });
    let d = declare(
        vec![spec(TypeSpecifier::Char)],
        vec![(
            named("a", vec![array]),
            Some(Initializer::List(vec![
                Initializer::Expression(int_expr("1")),
                Initializer::Expression(int_expr("2")),
            ])),
        )],
    );
    irgen.add_declaration(&d, &"char a[2] = {1, 2};".to_string()).unwrap();

    let unit = irgen.into_translation_unit();
    match unit.decls.get(&"x".to_string()).unwrap() {
        Declaration::Variable { dtype, initializer } => {
            assert_eq!(dtype.to_string(), "i32");
            assert!(matches!(initializer, Some(Initializer::Expression(_))));
        }
        _ => panic!("x is a variable"),
    }
    match unit.decls.get(&"y".to_string()).unwrap() {
        Declaration::Variable { dtype, initializer } => {
            assert_eq!(dtype.to_string(), "i32");
            assert!(initializer.is_none());
        }
        _ => panic!("y is a variable"),
    }
    assert_eq!(unit.decls.get(&"a".to_string()).unwrap().dtype().to_string(), "[2 x i8]");
    assert_eq!(unit.decls.len(), 3);
}

#[test]
fn invalid_initializers() {
    let mut irgen = Irgen::new();
    let code = "int z = f();".to_string();
    let d = declare(vec![spec(TypeSpecifier::Int)], vec![(named("z", vec![]), Some(Initializer::Expression(Expression::Other)))]);
    let e = irgen.add_declaration(&d, &code).unwrap_err();
    assert_eq!(e.code, code);
    assert_eq!(misc(e.message), "initializer is not valid");

    let function = named("g", vec![DerivedDeclarator::KRFunction(0)]);
    let d = declare(vec![spec(TypeSpecifier::Int)], vec![(function, Some(Initializer::Expression(int_expr("3"))))]);
    let e = irgen.add_declaration(&d, &"int g() = 3;".to_string()).unwrap_err();
    // a function type takes no initializer at all
    assert_eq!(misc(e.message), "initializer is not valid");
}

#[test]
fn void_variables() {
    let mut irgen = Irgen::new();
    let d = declare(vec![spec(TypeSpecifier::Void)], vec![(named("v", vec![]), None)]);
    let e = irgen.add_declaration(&d, &"void v;".to_string()).unwrap_err();
    match e.message {
        IrgenErrorMessage::InvalidDtype { dtype_error } => {
            assert_eq!(dtype_message(dtype_error), "A variable of type `void` cannot be declared")
        }
        other => panic!("unexpected {other:?}"),
    }
}

#[test]
fn typedefs() {
    let mut irgen = Irgen::new();
    let typedef = DeclarationSpecifier::StorageClass(StorageClassSpecifier::Typedef);
    let d = declare(vec![typedef, spec(TypeSpecifier::Int)], vec![(named("T", vec![]), None)]);
    irgen.add_declaration(&d, &"typedef int T;".to_string()).unwrap();

    // the same definition again is fine
    let typedef = DeclarationSpecifier::StorageClass(StorageClassSpecifier::Typedef);
    let d = declare(vec![typedef, spec(TypeSpecifier::Int)], vec![(named("T", vec![]), None)]);
    irgen.add_declaration(&d, &"typedef int T;".to_string()).unwrap();

    let d = declare(vec![spec(TypeSpecifier::TypedefName("T".to_string()))], vec![(named("t", vec![]), None)]);
    irgen.add_declaration(&d, &"T t;".to_string()).unwrap();

    let typedef = DeclarationSpecifier::StorageClass(StorageClassSpecifier::Typedef);
    let code = "typedef char T;".to_string();
    let d = declare(vec![typedef, spec(TypeSpecifier::Char)], vec![(named("T", vec![]), None)]);
    let e = irgen.add_declaration(&d, &code).unwrap_err();
    assert_eq!(e.code, code);
    match e.message {
        IrgenErrorMessage::ConflictingDtype { dtype, protorype_dtype } => {
            assert_eq!(dtype.to_string(), "i8");
            assert_eq!(protorype_dtype.to_string(), "i32");
        }
        other => panic!("unexpected {other:?}"),
    }

    let d = declare(vec![spec(TypeSpecifier::TypedefName("U".to_string()))], vec![(named("u", vec![]), None)]);
    let e = irgen.add_declaration(&d, &"U u;".to_string()).unwrap_err();
    match e.message {
        IrgenErrorMessage::InvalidDtype { dtype_error } => assert_eq!(dtype_message(dtype_error), "unknown type name `U`"),
        other => panic!("unexpected {other:?}"),
    }

    let unit = irgen.into_translation_unit();
    assert_eq!(unit.decls.get(&"t".to_string()).unwrap().dtype().to_string(), "i32");
    assert!(unit.decls.get(&"T".to_string()).is_none());
}

#[test]
fn conflicting_declarations() {
    let mut irgen = Irgen::new();
    let param = |ts| ParameterDeclaration { specifiers: vec![spec(ts)], declarator: None };
    let f_int = named("f", vec![DerivedDeclarator::Function(FunctionDeclarator { parameters: vec![param(TypeSpecifier::Int)] })]);
    let d = declare(vec![spec(TypeSpecifier::Int)], vec![(f_int, None)]);
    irgen.add_declaration(&d, &"int f(int);".to_string()).unwrap();

    let f_int = named("f", vec![DerivedDeclarator::Function(FunctionDeclarator { parameters: vec![param(TypeSpecifier::Int)] })]);
    let d = declare(vec![spec(TypeSpecifier::Int)], vec![(f_int, None)]);
    irgen.add_declaration(&d, &"int f(int);".to_string()).unwrap();

    let f_char = named("f", vec![DerivedDeclarator::Function(FunctionDeclarator { parameters: vec![param(TypeSpecifier::Char)] })]);
    let d = declare(vec![spec(TypeSpecifier::Int)], vec![(f_char, None)]);
    let e = irgen.add_declaration(&d, &"int f(char);".to_string()).unwrap_err();
    // reported on the name
    assert_eq!(e.code, "f");
    match e.message {
        IrgenErrorMessage::ConflictingDtype { dtype, protorype_dtype } => {
            assert_eq!(dtype.to_string(), "[ret:i32 params:(i32)]");
            assert_eq!(protorype_dtype.to_string(), "[ret:i32 params:(i8)]");
        }
        other => panic!("unexpected {other:?}"),
    }
    // the later declaration replaced the earlier one
    let unit = irgen.into_translation_unit();
    assert_eq!(unit.decls.get(&"f".to_string()).unwrap().dtype().to_string(), "[ret:i32 params:(i8)]");
}

#[test]
fn struct_declarations() {
    let mut irgen = Irgen::new();
    let undefined = StructType { kind: StructKind::Struct, identifier: Some("S".to_string()), declarations: None };
    let code = "struct S s;".to_string();
    let d = declare(vec![spec(TypeSpecifier::Struct(undefined))], vec![(named("s", vec![]), None)]);
    let e = irgen.add_declaration(&d, &code).unwrap_err();
    assert_eq!(misc(e.message), "incomplete struct type");

    let defined = StructType {
        kind: StructKind::Struct,
        identifier: Some("S".to_string()),
        declarations: Some(vec![StructDeclaration::Field(StructField {
            specifiers: vec![SpecifierQualifier::TypeSpecifier(TypeSpecifier::Int)],
            declarators: vec![StructDeclarator { declarator: Some(named("a", vec![])) }],
        })]),
    };
    let d = declare(vec![spec(TypeSpecifier::Struct(defined))], vec![]);
    irgen.add_declaration(&d, &"struct S { int a; };".to_string()).unwrap();

    let declared = StructType { kind: StructKind::Struct, identifier: Some("S".to_string()), declarations: None };
    let d = declare(
        vec![spec(TypeSpecifier::Struct(declared))],
        vec![(named("s", vec![]), Some(Initializer::List(vec![Initializer::Expression(int_expr("5"))])))],
    );
    irgen.add_declaration(&d, &"struct S s = {5};".to_string()).unwrap();

    let unit = irgen.into_translation_unit();
    assert_eq!(unit.decls.get(&"s".to_string()).unwrap().dtype().to_string(), "struct S");
    assert_eq!(unit.structs.get(&"S".to_string()).unwrap().as_ref().unwrap().to_string(), "struct S:<a:i32>");
}

#[test]
fn parameter_names() {
    let param = |name: Option<&str>| ParameterDeclaration {
        specifiers: vec![spec(TypeSpecifier::Int)],
        declarator: name.map(|n| named(n, vec![])),
    };
    // int f(int a, int b)
    let f = named("f", vec![DerivedDeclarator::Function(FunctionDeclarator { parameters: vec![param(Some("a")), param(Some("b"))] })]);
    assert_eq!(name_of_declarator(&f), "f");
    assert_eq!(name_of_params_from_function_declarator(&f), Some(vec!["a".to_string(), "b".to_string()]));

    // a parameter without a name gives up the names
    let g = named("g", vec![DerivedDeclarator::Function(FunctionDeclarator { parameters: vec![param(Some("a")), param(None)] })]);
    assert_eq!(name_of_params_from_function_declarator(&g), Some(vec![]));

    // int (*h(int x))(char y): the innermost function part counts
    let inner = named("h", vec![DerivedDeclarator::Function(FunctionDeclarator { parameters: vec![param(Some("x"))] })]);
    let outer = Declarator {
        kind: DeclaratorKind::Declarator(Box::new(inner)),
        derived: vec![DerivedDeclarator::Function(FunctionDeclarator { parameters: vec![param(Some("y"))] })],
    };
    assert_eq!(name_of_declarator(&outer), "h");
    assert_eq!(name_of_params_from_function_declarator(&outer), Some(vec!["x".to_string()]));

    // no function part
    assert_eq!(name_of_params_from_function_declarator(&named("v", vec![])), None);
    assert_eq!(name_of_params_from_function_declarator(&named("k", vec![DerivedDeclarator::KRFunction(0)])), Some(vec![]));
}
