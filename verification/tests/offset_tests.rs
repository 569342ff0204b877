use lib::c::ast::{
    Declaration as AstDeclaration, DeclarationSpecifier, Declarator, DeclaratorKind, SpecifierQualifier,
    StructDeclaration, StructDeclarator, StructField, StructKind, StructType, TypeSpecifier,
};
use lib::ir::Dtype;
use lib::irgen::Irgen;

fn named(name: &str) -> Declarator {
    Declarator { kind: DeclaratorKind::Identifier(name.to_string()), derived: vec![] }
}

fn field(ts: TypeSpecifier, names: &[&str]) -> StructDeclaration {
    StructDeclaration::Field(StructField {
        specifiers: vec![SpecifierQualifier::TypeSpecifier(ts)],
        declarators: names.iter().map(|n| StructDeclarator { declarator: Some(named(n)) }).collect(),
    })
}

#[test]
fn struct_field_offsets() {
    // struct S { char a; int b; struct { char c; long d; }; };
    let inner = StructType {
        kind: StructKind::Struct,
        identifier: None,
        declarations: Some(vec![field(TypeSpecifier::Char, &["c"]), field(TypeSpecifier::Long, &["d"])]),
    };
    let anonymous = StructDeclaration::Field(StructField {
        specifiers: vec![SpecifierQualifier::TypeSpecifier(TypeSpecifier::Struct(inner))],
        declarators: vec![],
    });
    let s = StructType {
        kind: StructKind::Struct,
        identifier: Some("S".to_string()),
        declarations: Some(vec![field(TypeSpecifier::Char, &["a"]), field(TypeSpecifier::Int, &["b"]), anonymous]),
    };
    let d = AstDeclaration { specifiers: vec![DeclarationSpecifier::TypeSpecifier(TypeSpecifier::Struct(s))], declarators: vec![] };
    let mut irgen = Irgen::new();
    irgen.add_declaration(&d, &"struct S { char a; int b; struct { char c; long d; }; };".to_string()).unwrap();
    let unit = irgen.into_translation_unit();

    let s = Dtype::structure(Some("S".to_string()), None);
    let (offset, dtype) = s.get_offset_struct_field("a", &unit.structs).unwrap();
    assert_eq!((offset, dtype.to_string()), (0, "i8".to_string()));
    let (offset, dtype) = s.get_offset_struct_field("b", &unit.structs).unwrap();
    assert_eq!((offset, dtype.to_string()), (4, "i32".to_string()));
    // fields of the anonymous struct are found through it: it starts at 8
    let (offset, dtype) = s.get_offset_struct_field("c", &unit.structs).unwrap();
    assert_eq!((offset, dtype.to_string()), (8, "i8".to_string()));
    let (offset, dtype) = s.get_offset_struct_field("d", &unit.structs).unwrap();
    assert_eq!((offset, dtype.to_string()), (16, "i64".to_string()));
    assert!(s.get_offset_struct_field("e", &unit.structs).is_none());
    // a type that is no struct has no fields
    assert!(Dtype::int_type().get_offset_struct_field("a", &unit.structs).is_none());
}
