//! Data types formed from the declaration specifiers and declarators of C declarations.
use vstd::prelude::*;

use super::dtype::{
    clone_name, dtypes_view, field_view, fields_view, lemma_struct_fields_view, spec_array, spec_array_elem, spec_float, spec_int,
    spec_set_const,
};
use super::{signed_value, Dtype, DtypeError, Named, SpecDtype};
use super::interp::wrap128;
use super::code::Constant;
use super::lemma_shl_one_is_pow2;
use vstd::string::StrSliceExecFns;
use crate::utils::{decimal, digit_char, hex, hex_digit_char};
use crate::c::ast::FloatFormat;
use crate::c::ast::{
    ArraySize, Constant as AstConstant, DeclarationSpecifier, Declarator, DeclaratorKind,
    DerivedDeclarator, Expression, IntegerBase, IntegerSize, ParameterDeclaration, PointerQualifier,
    SpecifierQualifier, StorageClassSpecifier, StructDeclaration, StructDeclarator, StructKind, StructType,
    TypeName, TypeQualifier, TypeSpecifier,
};

verus! {

broadcast use vstd::std_specs::vec::axiom_vec_decreases_to_view;

/// A field of a struct, as a name and a type.
pub type SpecField = (Option<Seq<char>>, SpecDtype);

/// What the specifiers of a declaration say, gathered one by one before a data type is formed.
pub struct BaseDtype<'a> {
    pub scalar: Option<&'a TypeSpecifier>,
    pub size_modifiers: Vec<&'a TypeSpecifier>,
    pub signed_option: Option<&'a TypeSpecifier>,
    pub typedef_name: Option<&'a String>,
    pub struct_type: Option<&'a StructType>,
    pub is_const: bool,
    pub is_typedef: bool,
}

/// The model of `BaseDtype`: the specifiers met, a typedef name as its characters.
pub struct BaseModel {
    pub scalar: Option<TypeSpecifier>,
    pub size_modifiers: Seq<TypeSpecifier>,
    pub signed_option: Option<TypeSpecifier>,
    pub typedef_name: Option<Seq<char>>,
    pub struct_type: Option<StructType>,
    pub is_const: bool,
    pub is_typedef: bool,
}

impl<'a> View for BaseDtype<'a> {
    type V = BaseModel;

    open spec fn view(&self) -> BaseModel {
        BaseModel {
            scalar: match self.scalar {
                Some(t) => Some(*t),
                None => None,
            },
            size_modifiers: self.size_modifiers@.map_values(|t: &TypeSpecifier| *t),
            signed_option: match self.signed_option {
                Some(t) => Some(*t),
                None => None,
            },
            typedef_name: match self.typedef_name {
                Some(n) => Some(n@),
                None => None,
            },
            struct_type: match self.struct_type {
                Some(s) => Some(*s),
                None => None,
            },
            is_const: self.is_const,
            is_typedef: self.is_typedef,
        }
    }
}

/// Nothing said yet.
pub open spec fn empty_base() -> BaseModel {
    BaseModel {
        scalar: None,
        size_modifiers: seq![],
        signed_option: None,
        typedef_name: None,
        struct_type: None,
        is_const: false,
        is_typedef: false,
    }
}

/// Applies a type specifier: at most one signedness, one scalar type, one typedef name and one
/// struct; any number of `short` and `long`. `None` for a specifier that is not supported.
pub open spec fn apply_type_specifier_spec(m: BaseModel, ts: TypeSpecifier) -> Option<Result<BaseModel, Seq<char>>> {
    match ts {
        TypeSpecifier::Unsigned | TypeSpecifier::Signed => if m.signed_option is Some {
            Some(Err("duplicate signed option"@))
        } else {
            Some(Ok(BaseModel { signed_option: Some(ts), ..m }))
        },
        TypeSpecifier::Void | TypeSpecifier::Bool | TypeSpecifier::Char | TypeSpecifier::Int
        | TypeSpecifier::Float | TypeSpecifier::Double => if m.scalar is Some {
            Some(Err("two or more scalar types in declaration specifiers"@))
        } else {
            Some(Ok(BaseModel { scalar: Some(ts), ..m }))
        },
        TypeSpecifier::Short | TypeSpecifier::Long => Some(
            Ok(BaseModel { size_modifiers: m.size_modifiers.push(ts), ..m }),
        ),
        TypeSpecifier::TypedefName(name) => if m.typedef_name is Some {
            Some(Err("two or more typedef names in declaration specifiers"@))
        } else {
            Some(Ok(BaseModel { typedef_name: Some(name@), ..m }))
        },
        TypeSpecifier::Struct(st) => if m.struct_type is Some {
            Some(Err("two or more struct type in declaration specifiers"@))
        } else {
            Some(Ok(BaseModel { struct_type: Some(st), ..m }))
        },
        TypeSpecifier::Other => None,
    }
}

/// Applies a type qualifier: `const`, which may repeat. `None` for any other.
pub open spec fn apply_type_qualifier_spec(m: BaseModel, q: TypeQualifier) -> Option<Result<BaseModel, Seq<char>>> {
    match q {
        TypeQualifier::Const => Some(Ok(BaseModel { is_const: true, ..m })),
        TypeQualifier::Other => None,
    }
}

/// Applies a specifier or qualifier of a type name or a struct field.
pub open spec fn apply_specifier_qualifier_spec(m: BaseModel, sq: SpecifierQualifier) -> Option<
    Result<BaseModel, Seq<char>>,
> {
    match sq {
        SpecifierQualifier::TypeSpecifier(ts) => apply_type_specifier_spec(m, ts),
        SpecifierQualifier::TypeQualifier(q) => apply_type_qualifier_spec(m, q),
        SpecifierQualifier::Extension => None,
    }
}

/// Applies a specifier of a declaration: `typedef`, which may repeat, a type specifier or a type
/// qualifier. `None` for any other.
pub open spec fn apply_declaration_specifier_spec(m: BaseModel, ds: DeclarationSpecifier) -> Option<
    Result<BaseModel, Seq<char>>,
> {
    match ds {
        DeclarationSpecifier::StorageClass(sc) => match sc {
            StorageClassSpecifier::Typedef => Some(Ok(BaseModel { is_typedef: true, ..m })),
            StorageClassSpecifier::Other => None,
        },
        DeclarationSpecifier::TypeSpecifier(ts) => apply_type_specifier_spec(m, ts),
        DeclarationSpecifier::TypeQualifier(q) => apply_type_qualifier_spec(m, q),
        DeclarationSpecifier::Other => None,
    }
}

/// Applies a qualifier after a `*`.
pub open spec fn apply_pointer_qualifier_spec(m: BaseModel, pq: PointerQualifier) -> Option<
    Result<BaseModel, Seq<char>>,
> {
    match pq {
        PointerQualifier::TypeQualifier(q) => apply_type_qualifier_spec(m, q),
        PointerQualifier::Extension => None,
    }
}

/// Applies specifiers and qualifiers in order, stopping at the first error: the result, or the
/// state before the failing one with the error.
pub open spec fn apply_specifier_qualifiers_spec(m: BaseModel, sqs: Seq<SpecifierQualifier>) -> Option<
    Result<BaseModel, (BaseModel, Seq<char>)>,
>
    decreases sqs.len(),
{
    if sqs.len() == 0 {
        Some(Ok(m))
    } else {
        match apply_specifier_qualifiers_spec(m, sqs.drop_last()) {
            Some(Ok(m2)) => match apply_specifier_qualifier_spec(m2, sqs.last()) {
                Some(Ok(m3)) => Some(Ok(m3)),
                Some(Err(e)) => Some(Err((m2, e))),
                None => None,
            },
            other => other,
        }
    }
}

/// Applies declaration specifiers in order, stopping at the first error.
pub open spec fn apply_declaration_specifiers_spec(m: BaseModel, dss: Seq<DeclarationSpecifier>) -> Option<
    Result<BaseModel, (BaseModel, Seq<char>)>,
>
    decreases dss.len(),
{
    if dss.len() == 0 {
        Some(Ok(m))
    } else {
        match apply_declaration_specifiers_spec(m, dss.drop_last()) {
            Some(Ok(m2)) => match apply_declaration_specifier_spec(m2, dss.last()) {
                Some(Ok(m3)) => Some(Ok(m3)),
                Some(Err(e)) => Some(Err((m2, e))),
                None => None,
            },
            other => other,
        }
    }
}

/// Applies pointer qualifiers in order.
pub open spec fn apply_pointer_qualifiers_spec(m: BaseModel, pqs: Seq<PointerQualifier>) -> Option<
    BaseModel,
>
    decreases pqs.len(),
{
    if pqs.len() == 0 {
        Some(m)
    } else {
        match apply_pointer_qualifiers_spec(m, pqs.drop_last()) {
            Some(m2) => match apply_pointer_qualifier_spec(m2, pqs.last()) {
                Some(Ok(m3)) => Some(m3),
                _ => None,
            },
            None => None,
        }
    }
}

/// The type the specifiers name when no struct is among them: a typedef name, or a scalar type
/// modified by size and signedness, made `const` if they say so. `None` where the computation
/// panics (no specifier at all).
pub open spec fn nonstruct_dtype_spec(m: BaseModel) -> Option<Result<SpecDtype, Seq<char>>> {
    if m.scalar is None && m.size_modifiers.len() == 0 && m.signed_option is None && m.typedef_name is None
        && m.struct_type is None && !m.is_const {
        None
    } else if m.typedef_name is Some {
        if !(m.scalar is None && m.size_modifiers.len() == 0 && m.signed_option is None && m.struct_type is None) {
            Some(Err("`typedef` can only be used with `const`"@))
        } else {
            Some(
                Ok(
                    spec_set_const(
                        SpecDtype::Typedef { name: m.typedef_name.unwrap(), is_const: false },
                        m.is_const,
                    ),
                ),
            )
        }
    } else {
        let scalar: Option<SpecDtype> = match m.scalar {
            Some(TypeSpecifier::Void) => Some(SpecDtype::Unit { is_const: false }),
            Some(TypeSpecifier::Bool) => Some(SpecDtype::Int { width: 1, is_signed: false, is_const: false }),
            Some(TypeSpecifier::Char) => Some(spec_int(8)),
            Some(TypeSpecifier::Int) => Some(spec_int(32)),
            Some(TypeSpecifier::Float) => Some(spec_float(32)),
            Some(TypeSpecifier::Double) => Some(spec_float(64)),
            Some(_) => None,
            None => Some(spec_int(32)),
        };
        let n = m.size_modifiers.len();
        let sized: Option<Result<SpecDtype, Seq<char>>> = if n == 0 {
            match scalar {
                Some(d) => Some(Ok(d)),
                None => None,
            }
        } else if n == 1 {
            match m.size_modifiers[0] {
                TypeSpecifier::Short => Some(Ok(spec_int(16))),
                TypeSpecifier::Long => Some(Ok(spec_int(64))),
                _ => None,
            }
        } else if n == 2 && m.size_modifiers[0] is Long && m.size_modifiers[1] is Long {
            Some(Ok(spec_int(64)))
        } else {
            Some(Err("two or more size modifiers in declaration specifiers"@))
        };
        if m.scalar is Some && scalar is None {
            None
        } else {
            match sized {
                Some(Ok(d)) => match m.signed_option {
                    Some(TypeSpecifier::Signed) | Some(TypeSpecifier::Unsigned) => if d is Int {
                        Some(
                            Ok(
                                spec_set_const(
                                    SpecDtype::Int {
                                        width: d->Int_width,
                                        is_signed: m.signed_option == Some(TypeSpecifier::Signed),
                                        is_const: false,
                                    },
                                    m.is_const,
                                ),
                            ),
                        )
                    } else {
                        Some(Err("`signed` and `unsigned` only be applied to `Dtype::Int`"@))
                    },
                    Some(_) => None,
                    None => Some(Ok(spec_set_const(d, m.is_const))),
                },
                other => other,
            }
        }
    }
}

/// The value of a digit character in bases up to 36, or `None` for a character that is no digit.
pub open spec fn digit_value(c: char) -> Option<nat> {
    if '0' <= c <= '9' {
        Some((c as nat - '0' as nat) as nat)
    } else if 'a' <= c <= 'z' {
        Some((c as nat - 'a' as nat + 10) as nat)
    } else if 'A' <= c <= 'Z' {
        Some((c as nat - 'A' as nat + 10) as nat)
    } else {
        None
    }
}

/// The number the digits `s` write in base `radix`, or `None` where a character is no digit of
/// that base. The empty sequence is 0 here; callers reject it.
pub open spec fn digits_value(s: Seq<char>, radix: nat) -> Option<nat>
    decreases s.len(),
{
    if s.len() == 0 {
        Some(0)
    } else {
        match (digits_value(s.drop_last(), radix), digit_value(s.last())) {
            (Some(v), Some(d)) => if d < radix {
                Some(v * radix + d)
            } else {
                None
            },
            _ => None,
        }
    }
}

/// The number that a text parses to as a `u128` in base `radix`: digits, optionally after a
/// `+`, at least one, with a value that fits. `None` where parsing fails.
pub open spec fn parse_u128(s: Seq<char>, radix: nat) -> Option<u128> {
    let digits = if s.len() > 0 && s[0] == '+' {
        s.drop_first()
    } else {
        s
    };
    if digits.len() == 0 {
        None
    } else {
        match digits_value(digits, radix) {
            Some(v) => if v <= u128::MAX {
                Some(v as u128)
            } else {
                None
            },
            None => None,
        }
    }
}

/// The base of an integer literal as a number; binary literals are not supported.
pub open spec fn radix_of(base: IntegerBase) -> Option<nat> {
    match base {
        IntegerBase::Decimal => Some(10),
        IntegerBase::Octal => Some(8),
        IntegerBase::Hexadecimal => Some(16),
        IntegerBase::Binary => None,
    }
}

/// The width of an integer literal's type, by its size suffix.
pub open spec fn literal_width(size: IntegerSize) -> usize {
    match size {
        IntegerSize::Int => 32,
        IntegerSize::Long => 64,
        IntegerSize::LongLong => 64,
    }
}

/// The integer value, width and signedness of a constant, `None` inside for a float constant;
/// `None` where the computation panics (a literal that does not parse, an unsupported base or
/// float format, a character literal that is not one character). A literal is signed unless it
/// has the `u` suffix or its value has the sign bit of its width set.
pub open spec fn constant_int_spec(c: AstConstant) -> Option<Option<(u128, usize, bool)>> {
    match c {
        AstConstant::Integer(i) => match radix_of(i.base) {
            Some(radix) => match parse_u128(i.number@, radix) {
                Some(v) => {
                    let w = literal_width(i.size);
                    Some(Some((v, w, !i.unsigned && (v as nat) < vstd::arithmetic::power2::pow2((w - 1) as nat))))
                },
                None => None,
            },
            None => None,
        },
        AstConstant::Float(f) => if f.format is LongDouble || f.format is Other {
            None
        } else {
            Some(None)
        },
        AstConstant::Character(s) => if s@.len() == 1 {
            Some(Some((s@[0] as u128, 8, true)))
        } else {
            None
        },
    }
}

/// The integer value, width and signedness of a constant expression (`None` inside for a float),
/// `Some(Err(()))` for an expression that is no constant, `None` where the computation panics
/// (negating an unsigned integer or the most negative one).
pub open spec fn expression_int_spec(e: Expression) -> Option<Result<Option<(u128, usize, bool)>, ()>>
    decreases e,
{
    match e {
        Expression::Constant(c) => match constant_int_spec(c) {
            Some(v) => Some(Ok(v)),
            None => None,
        },
        Expression::UnaryOperator { operator, operand } => match expression_int_spec(*operand) {
            Some(Ok(v)) => match operator {
                crate::c::ast::UnaryOperator::Minus => match v {
                    Some((value, width, is_signed)) => if !is_signed || signed_value(value) == i128::MIN {
                        None
                    } else {
                        Some(Ok(Some((wrap128(-signed_value(value)), width, is_signed))))
                    },
                    None => Some(Ok(None)),
                },
                crate::c::ast::UnaryOperator::Plus => Some(Ok(v)),
                crate::c::ast::UnaryOperator::Other => Some(Err(())),
            },
            other => other,
        },
        Expression::Other => Some(Err(())),
    }
}

/// `t` as the element type of an array whose size is the constant expression `size`: the
/// size must be an integer constant, not negative. `None` where the computation panics (a
/// size that is no expression or no constant, an element type of functions).
pub open spec fn array_size_spec(t: SpecDtype, size: ArraySize) -> Option<Result<SpecDtype, Seq<char>>> {
    match size {
        ArraySize::VariableExpression(e) => match expression_int_spec(e) {
            Some(Ok(Some((v, _w, s)))) => if s && signed_value(v) < 0 {
                Some(Err("declared as an array with a negative size"@))
            } else if spec_array_elem(t) is Function {
                None
            } else {
                Some(Ok(spec_array(t, v as usize)))
            },
            Some(Ok(None)) => Some(Err("expression is not an integer constant expression"@)),
            _ => None,
        },
        _ => None,
    }
}

/// Whether specifiers name a type and no other specifier than `const` comes with a typedef name
/// or a struct.
pub open spec fn base_is_empty(m: BaseModel) -> bool {
    m.scalar is None && m.size_modifiers.len() == 0 && m.signed_option is None && m.typedef_name is None
        && m.struct_type is None && !m.is_const
}

/// Scans the names of fields in order after the names `seen`, the fields of an anonymous struct
/// field in its place: `Ok` with the names seen at the end, `Err` at the first name seen before,
/// `None` where an anonymous field that is no struct with fields comes first (the check panics).
pub open spec fn scan_field_names(fs: Seq<SpecField>, seen: Seq<Seq<char>>) -> Option<Result<Seq<Seq<char>>, ()>>
    decreases fs,
{
    if fs.len() == 0 {
        Some(Ok(seen))
    } else {
        let first = match fs[0].0 {
            Some(n) => if seen.contains(n) {
                Some(Err(()))
            } else {
                Some(Ok(seen.push(n)))
            },
            None => match fs[0].1 {
                SpecDtype::Struct { fields: Some(inner), .. } => {
                    proof {
                        assert(decreases_to!(fs => fs[0]));
                        assert(decreases_to!(fs[0] => fs[0].1));
                    }
                    scan_field_names(inner, seen)
                },
                _ => None,
            },
        };
        match first {
            Some(Ok(s2)) => scan_field_names(fs.subrange(1, fs.len() as int), s2),
            other => other,
        }
    }
}

/// The names of a list of strings.
pub open spec fn strings_view(v: Seq<String>) -> Seq<Seq<char>> {
    v.map_values(|s: String| s@)
}

/// The type of a struct type specifier, given what the other specifiers say: the struct with
/// its fields where it is defined, made `const` if they say so. An error where another type
/// specifier comes with it, where a field's type cannot be formed, or where two fields share a
/// name. `None` where the computation panics (a union, a struct with neither tag nor fields).
pub open spec fn struct_dtype_spec(st: StructType, m: BaseModel) -> Option<Result<SpecDtype, Seq<char>>>
    decreases st,
{
    if !(m.scalar is None && m.size_modifiers.len() == 0 && m.signed_option is None) {
        Some(Err("`struct` can only be used with `const`"@))
    } else if !(st.identifier is Some || st.declarations is Some) || st.kind != StructKind::Struct {
        None
    } else {
        let name = match st.identifier {
            Some(n) => Some(n@),
            None => None,
        };
        match st.declarations {
            Some(ds) => match struct_declarations_spec(ds@) {
                Some(Ok(fs)) => match scan_field_names(fs, seq![]) {
                    Some(Ok(_)) => Some(
                        Ok(
                            spec_set_const(
                                SpecDtype::Struct {
                                    name,
                                    fields: Some(fs),
                                    is_const: false,
                                    size_align_offsets: None,
                                },
                                m.is_const,
                            ),
                        ),
                    ),
                    Some(Err(_)) => Some(Err("struct has duplicate field name"@)),
                    None => None,
                },
                Some(Err(e)) => Some(Err(e)),
                None => None,
            },
            None => Some(
                Ok(
                    spec_set_const(
                        SpecDtype::Struct { name, fields: None, is_const: false, size_align_offsets: None },
                        m.is_const,
                    ),
                ),
            ),
        }
    }
}

/// The fields of a list of struct declarations, one after the other.
pub open spec fn struct_declarations_spec(ds: Seq<StructDeclaration>) -> Option<Result<Seq<SpecField>, Seq<char>>>
    decreases ds,
{
    if ds.len() == 0 {
        Some(Ok(seq![]))
    } else {
        match struct_declarations_spec(ds.subrange(0, ds.len() - 1)) {
            Some(Ok(prefix)) => match struct_declaration_spec(ds[ds.len() - 1]) {
                Some(Ok(fs)) => Some(Ok(prefix + fs)),
                Some(Err(e)) => Some(Err(e)),
                None => None,
            },
            other => other,
        }
    }
}

/// The fields one struct declaration declares: each declarator applied to the type of the
/// specifiers. Without declarator, an anonymous struct gives one anonymous field whose fields
/// belong to the outer struct; anything else declares nothing, an error.
pub open spec fn struct_declaration_spec(d: StructDeclaration) -> Option<Result<Seq<SpecField>, Seq<char>>>
    decreases d,
{
    match d {
        StructDeclaration::StaticAssert => None,
        StructDeclaration::Field(f) => match apply_specifier_qualifiers_spec(empty_base(), f.specifiers@) {
            Some(Ok(m)) => {
                let t = if base_is_empty(m) {
                    None
                } else if m.typedef_name is Some || m.struct_type is None {
                    nonstruct_dtype_spec(m)
                } else {
                    proof {
                        lemma_specifier_qualifiers_struct(f.specifiers@);
                        let k = choose|k: int|
                            0 <= k < f.specifiers@.len() && f.specifiers@[k] == SpecifierQualifier::TypeSpecifier(
                                TypeSpecifier::Struct(m.struct_type.unwrap()),
                            );
                        assert(decreases_to!(d => f));
                        assert(decreases_to!(f => f.specifiers));
                        assert(decreases_to!(f.specifiers => f.specifiers@));
                        assert(decreases_to!(f.specifiers@ => f.specifiers@[k]));
                        let sq = f.specifiers@[k];
                        assert(sq is TypeSpecifier);
                        assert(decreases_to!(sq => sq->TypeSpecifier_0));
                        assert(decreases_to!(sq->TypeSpecifier_0 => sq->TypeSpecifier_0->Struct_0));
                    }
                    struct_dtype_spec(m.struct_type.unwrap(), m)
                };
                match t {
                    Some(Ok(t)) => match field_declarators_spec(t, f.declarators@) {
                        Some(Ok(fs)) => if fs.len() == 0 {
                            if t matches SpecDtype::Struct { name: None, .. } {
                                Some(Ok(seq![(None, spec_set_const(t, false))]))
                            } else {
                                Some(Err("declaration does not declare anything"@))
                            }
                        } else {
                            Some(Ok(fs))
                        },
                        other => other,
                    },
                    Some(Err(e)) => Some(Err(e)),
                    None => None,
                }
            },
            Some(Err((_, e))) => Some(Err(e)),
            None => None,
        },
    }
}

/// The fields the declarators of a struct field declare from type `t`. `None` where one has no
/// declarator (a bit field without name: the computation panics there).
pub open spec fn field_declarators_spec(t: SpecDtype, ds: Seq<StructDeclarator>) -> Option<
    Result<Seq<SpecField>, Seq<char>>,
>
    decreases ds,
{
    if ds.len() == 0 {
        Some(Ok(seq![]))
    } else {
        match field_declarators_spec(t, ds.subrange(0, ds.len() - 1)) {
            Some(Ok(prefix)) => match ds[ds.len() - 1].declarator {
                Some(decl) => match with_declarator_spec(t, decl) {
                    Some(Ok(f)) => Some(Ok(prefix.push(f))),
                    Some(Err(e)) => Some(Err(e)),
                    None => None,
                },
                None => None,
            },
            other => other,
        }
    }
}

/// The name a declarator declares and the type it forms from `t`: its derived parts applied in
/// order, then, for a parenthesized declarator, the inner one applied to the result.
pub open spec fn with_declarator_spec(t: SpecDtype, decl: Declarator) -> Option<Result<SpecField, Seq<char>>>
    decreases decl,
{
    match derived_spec(t, decl.derived@) {
        Some(Ok(t2)) => match decl.kind {
            DeclaratorKind::Abstract => Some(Ok((None, t2))),
            DeclaratorKind::Identifier(id) => Some(Ok((Some(id@), t2))),
            DeclaratorKind::Declarator(inner) => with_declarator_spec(t2, *inner),
        },
        Some(Err(e)) => Some(Err(e)),
        None => None,
    }
}

/// The type the derived parts of a declarator form from `t`, applied in order: a pointer (made
/// `const` by its qualifiers), an array of a constant size, or a function with the types of its
/// parameters (a lone `void` parameter meaning none).
pub open spec fn derived_spec(t: SpecDtype, ds: Seq<DerivedDeclarator>) -> Option<Result<SpecDtype, Seq<char>>>
    decreases ds,
{
    if ds.len() == 0 {
        Some(Ok(t))
    } else {
        match derived_spec(t, ds.subrange(0, ds.len() - 1)) {
            Some(Ok(t2)) => match ds[ds.len() - 1] {
                DerivedDeclarator::Pointer(pqs) => match apply_pointer_qualifiers_spec(empty_base(), pqs@) {
                    Some(m) => Some(
                        Ok(spec_set_const(SpecDtype::Pointer { inner: Box::new(t2), is_const: false }, m.is_const)),
                    ),
                    None => None,
                },
                DerivedDeclarator::Array(ad) => if ad.qualifiers@.len() != 0 {
                    None
                } else {
                    array_size_spec(t2, ad.size)
                },
                DerivedDeclarator::Function(fd) => match parameters_spec(fd.parameters@) {
                    Some(Ok(ps)) => Some(
                        Ok(
                            SpecDtype::Function {
                                ret: Box::new(t2),
                                params: if ps.len() == 1 && ps[0] == (SpecDtype::Unit { is_const: false }) {
                                    seq![]
                                } else {
                                    ps
                                },
                            },
                        ),
                    ),
                    Some(Err(e)) => Some(Err(e)),
                    None => None,
                },
                DerivedDeclarator::KRFunction(n) => if n != 0 {
                    None
                } else {
                    Some(Ok(SpecDtype::Function { ret: Box::new(t2), params: seq![] }))
                },
            },
            other => other,
        }
    }
}

/// The types of a list of parameter declarations.
pub open spec fn parameters_spec(ps: Seq<ParameterDeclaration>) -> Option<Result<Seq<SpecDtype>, Seq<char>>>
    decreases ps,
{
    if ps.len() == 0 {
        Some(Ok(seq![]))
    } else {
        match parameters_spec(ps.subrange(0, ps.len() - 1)) {
            Some(Ok(prefix)) => match parameter_spec(ps[ps.len() - 1]) {
                Some(Ok(t)) => Some(Ok(prefix.push(t))),
                Some(Err(e)) => Some(Err(e)),
                None => None,
            },
            other => other,
        }
    }
}

/// The type of a parameter declaration: the specifiers' type with the declarator applied; an
/// array becomes a pointer to its elements.
pub open spec fn parameter_spec(p: ParameterDeclaration) -> Option<Result<SpecDtype, Seq<char>>>
    decreases p,
{
    match apply_declaration_specifiers_spec(empty_base(), p.specifiers@) {
        Some(Ok(m)) => {
            let t = if base_is_empty(m) {
                None
            } else if m.typedef_name is Some || m.struct_type is None {
                nonstruct_dtype_spec(m)
            } else {
                proof {
                    lemma_declaration_specifiers_struct(p.specifiers@);
                    let k = choose|k: int|
                        0 <= k < p.specifiers@.len() && p.specifiers@[k] == DeclarationSpecifier::TypeSpecifier(
                            TypeSpecifier::Struct(m.struct_type.unwrap()),
                        );
                    assert(decreases_to!(p => p.specifiers));
                    assert(decreases_to!(p.specifiers => p.specifiers@));
                    assert(decreases_to!(p.specifiers@ => p.specifiers@[k]));
                    let ds = p.specifiers@[k];
                    assert(ds is TypeSpecifier);
                    assert(decreases_to!(ds => ds->TypeSpecifier_0));
                    assert(decreases_to!(ds->TypeSpecifier_0 => ds->TypeSpecifier_0->Struct_0));
                }
                struct_dtype_spec(m.struct_type.unwrap(), m)
            };
            match t {
                Some(Ok(t)) => match p.declarator {
                    Some(decl) => match with_declarator_spec(t, decl) {
                        Some(Ok((_, t2))) => match t2 {
                            SpecDtype::Array { inner, .. } => Some(
                                Ok(SpecDtype::Pointer { inner, is_const: false }),
                            ),
                            _ => Some(Ok(t2)),
                        },
                        Some(Err(e)) => Some(Err(e)),
                        None => None,
                    },
                    None => Some(Ok(t)),
                },
                other => other,
            }
        },
        Some(Err((_, e))) => Some(Err(e)),
        None => None,
    }
}

/// The type that declaration specifiers name (a struct type with its fields), `None` where the
/// computation panics.
pub open spec fn base_dtype_spec(m: BaseModel) -> Option<Result<SpecDtype, Seq<char>>> {
    if base_is_empty(m) {
        None
    } else if m.typedef_name is Some || m.struct_type is None {
        nonstruct_dtype_spec(m)
    } else {
        struct_dtype_spec(m.struct_type.unwrap(), m)
    }
}

/// A struct that specifiers end up with is one of theirs.
pub proof fn lemma_specifier_qualifiers_struct(sqs: Seq<SpecifierQualifier>)
    ensures
        apply_specifier_qualifiers_spec(empty_base(), sqs) matches Some(Ok(m)) ==> (m.struct_type matches Some(
            st,
        ) ==> exists|k: int|
            0 <= k < sqs.len() && sqs[k] == SpecifierQualifier::TypeSpecifier(TypeSpecifier::Struct(st))),
    decreases sqs.len(),
{
    if sqs.len() > 0 {
        lemma_specifier_qualifiers_struct(sqs.drop_last());
        if let Some(Ok(m)) = apply_specifier_qualifiers_spec(empty_base(), sqs) {
            if let Some(st) = m.struct_type {
                if let Some(Ok(m2)) = apply_specifier_qualifiers_spec(empty_base(), sqs.drop_last()) {
                    if m2.struct_type is Some {
                        let k = choose|k: int|
                            0 <= k < sqs.drop_last().len() && sqs.drop_last()[k]
                                == SpecifierQualifier::TypeSpecifier(TypeSpecifier::Struct(m2.struct_type.unwrap()));
                        assert(sqs[k] == sqs.drop_last()[k]);
                    } else {
                        assert(sqs[sqs.len() - 1] == SpecifierQualifier::TypeSpecifier(TypeSpecifier::Struct(st)));
                    }
                }
            }
        }
    }
}

/// A struct that declaration specifiers end up with is one of theirs.
pub proof fn lemma_declaration_specifiers_struct(dss: Seq<DeclarationSpecifier>)
    ensures
        apply_declaration_specifiers_spec(empty_base(), dss) matches Some(Ok(m)) ==> (m.struct_type matches Some(
            st,
        ) ==> exists|k: int|
            0 <= k < dss.len() && dss[k] == DeclarationSpecifier::TypeSpecifier(TypeSpecifier::Struct(st))),
    decreases dss.len(),
{
    if dss.len() > 0 {
        lemma_declaration_specifiers_struct(dss.drop_last());
        if let Some(Ok(m)) = apply_declaration_specifiers_spec(empty_base(), dss) {
            if let Some(st) = m.struct_type {
                if let Some(Ok(m2)) = apply_declaration_specifiers_spec(empty_base(), dss.drop_last()) {
                    if m2.struct_type is Some {
                        let k = choose|k: int|
                            0 <= k < dss.drop_last().len() && dss.drop_last()[k]
                                == DeclarationSpecifier::TypeSpecifier(TypeSpecifier::Struct(m2.struct_type.unwrap()));
                        assert(dss[k] == dss.drop_last()[k]);
                    } else {
                        assert(dss[dss.len() - 1] == DeclarationSpecifier::TypeSpecifier(TypeSpecifier::Struct(st)));
                    }
                }
            }
        }
    }
}


/// An error with the given message.
fn misc(message: &str) -> (e: DtypeError)
    ensures
        e.message() == message@,
{
    DtypeError::Misc { message: String::from_str(message) }
}

impl<'a> BaseDtype<'a> {
    /// Nothing said yet.
    pub fn new() -> (r: Self)
        ensures
            r@ == empty_base(),
    {
        let r = BaseDtype {
            scalar: None,
            size_modifiers: Vec::new(),
            signed_option: None,
            typedef_name: None,
            struct_type: None,
            is_const: false,
            is_typedef: false,
        };
        assert(r@.size_modifiers =~= seq![]);
        r
    }

    /// Applies a storage class: `typedef`, which may repeat.
    fn apply_storage_class(&mut self, storage_class: &StorageClassSpecifier) -> (r: Result<(), DtypeError>)
        requires
            *storage_class == StorageClassSpecifier::Typedef,
        ensures
            r is Ok,
            final(self)@ == (BaseModel { is_typedef: true, ..old(self)@ }),
    {
        self.is_typedef = true;
        Ok(())
    }

    /// Applies a type specifier; on an error `self` is left as it was.
    fn apply_type_specifier(&mut self, type_specifier: &'a TypeSpecifier) -> (r: Result<(), DtypeError>)
        requires
            apply_type_specifier_spec(old(self)@, *type_specifier) is Some,
        ensures
            match apply_type_specifier_spec(old(self)@, *type_specifier).unwrap() {
                Ok(m) => r is Ok && final(self)@ == m,
                Err(e) => r matches Err(err) && err.message() == e && final(self)@ == old(self)@,
            },
    {
        match type_specifier {
            TypeSpecifier::Unsigned | TypeSpecifier::Signed => {
                if self.signed_option.is_some() {
                    return Err(misc("duplicate signed option"));
                }
                self.signed_option = Some(type_specifier);
            },
            TypeSpecifier::Void | TypeSpecifier::Bool | TypeSpecifier::Char | TypeSpecifier::Int
            | TypeSpecifier::Float | TypeSpecifier::Double => {
                if self.scalar.is_some() {
                    return Err(misc("two or more scalar types in declaration specifiers"));
                }
                self.scalar = Some(type_specifier);
            },
            TypeSpecifier::Short | TypeSpecifier::Long => {
                self.size_modifiers.push(type_specifier);
                assert(self@.size_modifiers =~= old(self)@.size_modifiers.push(*type_specifier));
            },
            TypeSpecifier::TypedefName(name) => {
                if self.typedef_name.is_some() {
                    return Err(misc("two or more typedef names in declaration specifiers"));
                }
                self.typedef_name = Some(name);
            },
            TypeSpecifier::Struct(struct_type) => {
                if self.struct_type.is_some() {
                    return Err(misc("two or more struct type in declaration specifiers"));
                }
                self.struct_type = Some(struct_type);
            },
            TypeSpecifier::Other => {},
        }
        Ok(())
    }

    /// Applies a type qualifier: `const`, which may repeat.
    fn apply_type_qualifier(&mut self, type_qualifier: &TypeQualifier) -> (r: Result<(), DtypeError>)
        requires
            *type_qualifier == TypeQualifier::Const,
        ensures
            r is Ok,
            final(self)@ == (BaseModel { is_const: true, ..old(self)@ }),
    {
        self.is_const = true;
        Ok(())
    }

    /// Applies a specifier or qualifier of a type name or a struct field; on an error `self` is
    /// left as it was.
    pub fn apply_specifier_qualifier(&mut self, typename_specifier: &'a SpecifierQualifier) -> (r: Result<
        (),
        DtypeError,
    >)
        requires
            apply_specifier_qualifier_spec(old(self)@, *typename_specifier) is Some,
        ensures
            match apply_specifier_qualifier_spec(old(self)@, *typename_specifier).unwrap() {
                Ok(m) => r is Ok && final(self)@ == m,
                Err(e) => r matches Err(err) && err.message() == e && final(self)@ == old(self)@,
            },
    {
        match typename_specifier {
            SpecifierQualifier::TypeSpecifier(type_specifier) => self.apply_type_specifier(type_specifier),
            SpecifierQualifier::TypeQualifier(type_qualifier) => self.apply_type_qualifier(type_qualifier),
            SpecifierQualifier::Extension => Ok(()),
        }
    }

    /// Applies a specifier of a declaration; on an error `self` is left as it was.
    pub fn apply_declaration_specifier(&mut self, declaration_specifier: &'a DeclarationSpecifier) -> (r: Result<
        (),
        DtypeError,
    >)
        requires
            apply_declaration_specifier_spec(old(self)@, *declaration_specifier) is Some,
        ensures
            match apply_declaration_specifier_spec(old(self)@, *declaration_specifier).unwrap() {
                Ok(m) => r is Ok && final(self)@ == m,
                Err(e) => r matches Err(err) && err.message() == e && final(self)@ == old(self)@,
            },
    {
        match declaration_specifier {
            DeclarationSpecifier::StorageClass(storage_class) => self.apply_storage_class(storage_class),
            DeclarationSpecifier::TypeSpecifier(type_specifier) => self.apply_type_specifier(type_specifier),
            DeclarationSpecifier::TypeQualifier(type_qualifier) => self.apply_type_qualifier(type_qualifier),
            DeclarationSpecifier::Other => Ok(()),
        }
    }

    /// Applies a qualifier after a `*`.
    pub fn apply_pointer_qualifier(&mut self, pointer_qualifier: &PointerQualifier) -> (r: Result<(), DtypeError>)
        requires
            apply_pointer_qualifier_spec(old(self)@, *pointer_qualifier) is Some,
        ensures
            match apply_pointer_qualifier_spec(old(self)@, *pointer_qualifier).unwrap() {
                Ok(m) => r is Ok && final(self)@ == m,
                Err(e) => r matches Err(err) && err.message() == e && final(self)@ == old(self)@,
            },
    {
        match pointer_qualifier {
            PointerQualifier::TypeQualifier(type_qualifier) => self.apply_type_qualifier(type_qualifier),
            PointerQualifier::Extension => Ok(()),
        }
    }

    /// Applies specifiers and qualifiers in order, stopping at the first error: `self` is then
    /// what it was before the failing one.
    pub fn apply_specifier_qualifiers(&mut self, typename_specifiers: &'a Vec<SpecifierQualifier>) -> (r: Result<
        (),
        DtypeError,
    >)
        requires
            apply_specifier_qualifiers_spec(old(self)@, typename_specifiers@) is Some,
        ensures
            match apply_specifier_qualifiers_spec(old(self)@, typename_specifiers@).unwrap() {
                Ok(m) => r is Ok && final(self)@ == m,
                Err((m, e)) => r matches Err(err) && err.message() == e && final(self)@ == m,
            },
    {
        let ghost m0 = self@;
        let mut i: usize = 0;
        while i < typename_specifiers.len()
            invariant
                i <= typename_specifiers@.len(),
                m0 == old(self)@,
                apply_specifier_qualifiers_spec(m0, typename_specifiers@) is Some,
                apply_specifier_qualifiers_spec(m0, typename_specifiers@.take(i as int)) == Some(
                    Ok::<BaseModel, (BaseModel, Seq<char>)>(self@),
                ),
            decreases typename_specifiers@.len() - i,
        {
            proof {
                lemma_specifier_qualifiers_prefix(m0, typename_specifiers@, i as int);
                assert(typename_specifiers@.take(i + 1).drop_last() =~= typename_specifiers@.take(i as int));
                assert(typename_specifiers@.take(i + 1).last() == typename_specifiers@[i as int]);
            }
            let ghost before = self@;
            let r = self.apply_specifier_qualifier(&typename_specifiers[i]);
            if r.is_err() {
                proof {
                    let e = apply_specifier_qualifier_spec(before, typename_specifiers@[i as int]).unwrap()->Err_0;
                    assert(apply_specifier_qualifiers_spec(m0, typename_specifiers@.take(i + 1)) == Some(
                        Err::<BaseModel, (BaseModel, Seq<char>)>((before, e)),
                    ));
                    lemma_specifier_qualifiers_stop(m0, typename_specifiers@, i + 1);
                }
                return r;
            }
            i = i + 1;
        }
        assert(typename_specifiers@.take(i as int) =~= typename_specifiers@);
        Ok(())
    }

    /// Applies declaration specifiers in order, stopping at the first error: `self` is then what
    /// it was before the failing one.
    pub fn apply_declaration_specifiers(&mut self, declaration_specifiers: &'a Vec<DeclarationSpecifier>) -> (r:
        Result<(), DtypeError>)
        requires
            apply_declaration_specifiers_spec(old(self)@, declaration_specifiers@) is Some,
        ensures
            match apply_declaration_specifiers_spec(old(self)@, declaration_specifiers@).unwrap() {
                Ok(m) => r is Ok && final(self)@ == m,
                Err((m, e)) => r matches Err(err) && err.message() == e && final(self)@ == m,
            },
    {
        let ghost m0 = self@;
        let mut i: usize = 0;
        while i < declaration_specifiers.len()
            invariant
                i <= declaration_specifiers@.len(),
                m0 == old(self)@,
                apply_declaration_specifiers_spec(m0, declaration_specifiers@) is Some,
                apply_declaration_specifiers_spec(m0, declaration_specifiers@.take(i as int)) == Some(
                    Ok::<BaseModel, (BaseModel, Seq<char>)>(self@),
                ),
            decreases declaration_specifiers@.len() - i,
        {
            proof {
                lemma_declaration_specifiers_prefix(m0, declaration_specifiers@, i as int);
                assert(declaration_specifiers@.take(i + 1).drop_last() =~= declaration_specifiers@.take(i as int));
                assert(declaration_specifiers@.take(i + 1).last() == declaration_specifiers@[i as int]);
            }
            let ghost before = self@;
            let r = self.apply_declaration_specifier(&declaration_specifiers[i]);
            if r.is_err() {
                proof {
                    let e = apply_declaration_specifier_spec(before, declaration_specifiers@[i as int]).unwrap()->Err_0;
                    assert(apply_declaration_specifiers_spec(m0, declaration_specifiers@.take(i + 1)) == Some(
                        Err::<BaseModel, (BaseModel, Seq<char>)>((before, e)),
                    ));
                    lemma_declaration_specifiers_stop(m0, declaration_specifiers@, i + 1);
                }
                return r;
            }
            i = i + 1;
        }
        assert(declaration_specifiers@.take(i as int) =~= declaration_specifiers@);
        Ok(())
    }
}

/// Where the specifiers as a whole apply without panic and a prefix applies without error, the
/// next one applies without panic.
proof fn lemma_specifier_qualifiers_prefix(m: BaseModel, sqs: Seq<SpecifierQualifier>, i: int)
    requires
        0 <= i < sqs.len(),
        apply_specifier_qualifiers_spec(m, sqs) is Some,
        apply_specifier_qualifiers_spec(m, sqs.take(i)) matches Some(Ok(_)),
    ensures
        apply_specifier_qualifier_spec(apply_specifier_qualifiers_spec(m, sqs.take(i))->Some_0->Ok_0, sqs[i])
            is Some,
    decreases sqs.len(),
{
    if i + 1 < sqs.len() {
        assert(sqs.drop_last().take(i) =~= sqs.take(i));
        assert(sqs.drop_last()[i] == sqs[i]);
        lemma_specifier_qualifiers_stop_all(m, sqs);
        lemma_specifier_qualifiers_prefix(m, sqs.drop_last(), i);
    } else {
        assert(sqs.drop_last() =~= sqs.take(i));
    }
}

/// Where a prefix of the specifiers fails, the whole fails the same way.
proof fn lemma_specifier_qualifiers_stop(m: BaseModel, sqs: Seq<SpecifierQualifier>, i: int)
    requires
        0 <= i <= sqs.len(),
        apply_specifier_qualifiers_spec(m, sqs.take(i)) matches Some(Err(_)),
    ensures
        apply_specifier_qualifiers_spec(m, sqs) == apply_specifier_qualifiers_spec(m, sqs.take(i)),
    decreases sqs.len() - i,
{
    if i < sqs.len() {
        assert(sqs.take(i + 1).drop_last() =~= sqs.take(i));
        lemma_specifier_qualifiers_stop(m, sqs, i + 1);
    } else {
        assert(sqs.take(i) =~= sqs);
    }
}

/// Where the specifiers as a whole apply without panic, so does their prefix without the last.
proof fn lemma_specifier_qualifiers_stop_all(m: BaseModel, sqs: Seq<SpecifierQualifier>)
    requires
        sqs.len() > 0,
        apply_specifier_qualifiers_spec(m, sqs) is Some,
    ensures
        apply_specifier_qualifiers_spec(m, sqs.drop_last()) is Some,
{
}

/// Where the declaration specifiers as a whole apply without panic and a prefix applies
/// without error, the next one applies without panic.
proof fn lemma_declaration_specifiers_prefix(m: BaseModel, dss: Seq<DeclarationSpecifier>, i: int)
    requires
        0 <= i < dss.len(),
        apply_declaration_specifiers_spec(m, dss) is Some,
        apply_declaration_specifiers_spec(m, dss.take(i)) matches Some(Ok(_)),
    ensures
        apply_declaration_specifier_spec(apply_declaration_specifiers_spec(m, dss.take(i))->Some_0->Ok_0, dss[i])
            is Some,
    decreases dss.len(),
{
    if i + 1 < dss.len() {
        assert(dss.drop_last().take(i) =~= dss.take(i));
        assert(dss.drop_last()[i] == dss[i]);
        lemma_declaration_specifiers_prefix(m, dss.drop_last(), i);
    } else {
        assert(dss.drop_last() =~= dss.take(i));
    }
}

/// Where a prefix of the declaration specifiers fails, the whole fails the same way.
proof fn lemma_declaration_specifiers_stop(m: BaseModel, dss: Seq<DeclarationSpecifier>, i: int)
    requires
        0 <= i <= dss.len(),
        apply_declaration_specifiers_spec(m, dss.take(i)) matches Some(Err(_)),
    ensures
        apply_declaration_specifiers_spec(m, dss) == apply_declaration_specifiers_spec(m, dss.take(i)),
    decreases dss.len() - i,
{
    if i < dss.len() {
        assert(dss.take(i + 1).drop_last() =~= dss.take(i));
        lemma_declaration_specifiers_stop(m, dss, i + 1);
    } else {
        assert(dss.take(i) =~= dss);
    }
}


impl Dtype {
    /// The type that specifiers without a struct name: a typedef name, or a scalar type (`int`
    /// where none is given) modified by size and signedness; `const` where they say so.
    fn try_from_nonstruct_base(spec: &BaseDtype) -> (r: Result<Dtype, DtypeError>)
        requires
            spec@.typedef_name is Some || spec@.struct_type is None,
            nonstruct_dtype_spec(spec@) is Some,
        ensures
            match nonstruct_dtype_spec(spec@).unwrap() {
                Ok(d) => r matches Ok(x) && x@ == d,
                Err(e) => r matches Err(err) && err.message() == e,
            },
    {
        if let Some(name) = spec.typedef_name {
            if !(spec.scalar.is_none() && spec.size_modifiers.len() == 0 && spec.signed_option.is_none()
                && spec.struct_type.is_none()) {
                return Err(misc("`typedef` can only be used with `const`"));
            }
            return Ok(Dtype::typedef(name.clone()).set_const(spec.is_const));
        }
        let mut dtype = match spec.scalar {
            Some(TypeSpecifier::Void) => Dtype::unit(),
            Some(TypeSpecifier::Bool) => Dtype::bool_type(),
            Some(TypeSpecifier::Char) => Dtype::char_type(),
            Some(TypeSpecifier::Int) => Dtype::int_type(),
            Some(TypeSpecifier::Float) => Dtype::float_type(),
            Some(TypeSpecifier::Double) => Dtype::double_type(),
            Some(_) => Dtype::int_type(),
            None => Dtype::int_type(),
        };
        let number_of_modifier = spec.size_modifiers.len();
        if number_of_modifier == 1 {
            dtype = match spec.size_modifiers[0] {
                TypeSpecifier::Short => Dtype::short_type(),
                _ => Dtype::long_type(),
            };
        } else if number_of_modifier == 2 {
            let long_long = match (spec.size_modifiers[0], spec.size_modifiers[1]) {
                (TypeSpecifier::Long, TypeSpecifier::Long) => true,
                _ => false,
            };
            if !long_long {
                return Err(misc("two or more size modifiers in declaration specifiers"));
            }
            dtype = Dtype::longlong_type();
        } else if number_of_modifier > 2 {
            return Err(misc("two or more size modifiers in declaration specifiers"));
        }
        if let Some(signed_option) = spec.signed_option {
            let is_signed = match signed_option {
                TypeSpecifier::Signed => true,
                _ => false,
            };
            if dtype.get_int_width().is_none() {
                return Err(misc("`signed` and `unsigned` only be applied to `Dtype::Int`"));
            }
            dtype = dtype.set_signed(is_signed);
        }
        Ok(dtype.set_const(spec.is_const))
    }
}


/// Whether `names` holds `name`.
fn contains_string(names: &Vec<String>, name: &String) -> (r: bool)
    ensures
        r == strings_view(names@).contains(name@),
{
    let mut i: usize = 0;
    while i < names.len()
        invariant
            i <= names@.len(),
            forall|j: int| 0 <= j < i ==> names@[j]@ != name@,
        decreases names@.len() - i,
    {
        if names[i] == *name {
            assert(strings_view(names@)[i as int] == name@);
            return true;
        }
        i = i + 1;
    }
    assert forall|j: int| 0 <= j < strings_view(names@).len() implies strings_view(names@)[j] != name@ by {
        assert(names@[j]@ != name@);
    }
    false
}

/// Checks that no two fields share a name, the fields of anonymous struct fields counting as
/// fields in their place, after the names `field_names` (which collects the names met).
fn check_no_duplicate_field(fields: &Vec<Named<Dtype>>, field_names: &mut Vec<String>) -> (r: bool)
    requires
        scan_field_names(fields_view(fields@), strings_view(old(field_names)@)) is Some,
    ensures
        r == (scan_field_names(fields_view(fields@), strings_view(old(field_names)@)) matches Some(Ok(_))),
        r ==> scan_field_names(fields_view(fields@), strings_view(old(field_names)@)) == Some(
            Ok::<Seq<Seq<char>>, ()>(strings_view(final(field_names)@)),
        ),
    decreases fields,
{
    let ghost fv = fields_view(fields@);
    let ghost seen0 = strings_view(field_names@);
    let mut i: usize = 0;
    assert(fv.subrange(0, fv.len() as int) =~= fv);
    while i < fields.len()
        invariant
            i <= fields@.len(),
            fv == fields_view(fields@),
            seen0 == strings_view(old(field_names)@),
            scan_field_names(fv, seen0) is Some,
            scan_field_names(fv, seen0) == scan_field_names(
                fv.subrange(i as int, fv.len() as int),
                strings_view(field_names@),
            ),
        decreases fields@.len() - i,
    {
        let ghost rest = fv.subrange(i as int, fv.len() as int);
        let ghost seen = strings_view(field_names@);
        proof {
            assert(rest[0] == fv[i as int]);
            assert(rest.subrange(1, rest.len() as int) =~= fv.subrange(i + 1, fv.len() as int));
        }
        let field = &fields[i];
        match field.name() {
            Some(name) => {
                if contains_string(field_names, name) {
                    return false;
                }
                field_names.push(name.clone());
                assert(strings_view(field_names@) =~= seen.push(name@));
            },
            None => {
                proof {
                    if field.inner matches Dtype::Struct { fields: Some(_), .. } {
                        lemma_struct_fields_view(field.inner);
                    }
                }
                match &field.inner {
                    Dtype::Struct { fields: Some(inner_fields), .. } => {
                        proof {
                            assert(decreases_to!(fields => fields@));
                            assert(decreases_to!(fields@ => fields@[i as int]));
                            assert(decreases_to!(fields@[i as int] => fields@[i as int].inner));
                        }
                        if !check_no_duplicate_field(inner_fields, field_names) {
                            return false;
                        }
                    },
                    _ => {
                        return false;
                    },
                }
            },
        }
        i = i + 1;
    }
    assert(fv.subrange(i as int, fv.len() as int).len() == 0);
    true
}


/// Where the declarations as a whole are formed without panic and a prefix without error, the
/// next one is formed without panic.
proof fn lemma_struct_declarations_prefix(ds: Seq<StructDeclaration>, i: int)
    requires
        0 <= i < ds.len(),
        struct_declarations_spec(ds) is Some,
        struct_declarations_spec(ds.subrange(0, i)) matches Some(Ok(_)),
    ensures
        struct_declaration_spec(ds[i]) is Some,
    decreases ds.len(),
{
    let init = ds.subrange(0, ds.len() - 1);
    if i + 1 < ds.len() {
        assert(init.subrange(0, i) =~= ds.subrange(0, i));
        assert(init[i] == ds[i]);
        lemma_struct_declarations_prefix(init, i);
    } else {
        assert(init =~= ds.subrange(0, i));
    }
}

/// Where a prefix of the declarations fails, the whole fails the same way.
proof fn lemma_struct_declarations_stop(ds: Seq<StructDeclaration>, i: int)
    requires
        0 <= i <= ds.len(),
        struct_declarations_spec(ds.subrange(0, i)) matches Some(Err(_)),
    ensures
        struct_declarations_spec(ds) == struct_declarations_spec(ds.subrange(0, i)),
    decreases ds.len() - i,
{
    if i < ds.len() {
        assert(ds.subrange(0, i + 1).subrange(0, i) =~= ds.subrange(0, i));
        lemma_struct_declarations_stop(ds, i + 1);
    } else {
        assert(ds.subrange(0, i) =~= ds);
    }
}

/// Where the declarators as a whole give fields without panic and a prefix without error, the
/// next one has a declarator, and it gives a field without panic.
proof fn lemma_field_declarators_prefix(t: SpecDtype, ds: Seq<StructDeclarator>, i: int)
    requires
        0 <= i < ds.len(),
        field_declarators_spec(t, ds) is Some,
        field_declarators_spec(t, ds.subrange(0, i)) matches Some(Ok(_)),
    ensures
        ds[i].declarator matches Some(decl) && with_declarator_spec(t, decl) is Some,
    decreases ds.len(),
{
    let init = ds.subrange(0, ds.len() - 1);
    if i + 1 < ds.len() {
        assert(init.subrange(0, i) =~= ds.subrange(0, i));
        assert(init[i] == ds[i]);
        lemma_field_declarators_prefix(t, init, i);
    } else {
        assert(init =~= ds.subrange(0, i));
    }
}

/// Where a prefix of the declarators fails, the whole fails the same way.
proof fn lemma_field_declarators_stop(t: SpecDtype, ds: Seq<StructDeclarator>, i: int)
    requires
        0 <= i <= ds.len(),
        field_declarators_spec(t, ds.subrange(0, i)) matches Some(Err(_)),
    ensures
        field_declarators_spec(t, ds) == field_declarators_spec(t, ds.subrange(0, i)),
    decreases ds.len() - i,
{
    if i < ds.len() {
        assert(ds.subrange(0, i + 1).subrange(0, i) =~= ds.subrange(0, i));
        lemma_field_declarators_stop(t, ds, i + 1);
    } else {
        assert(ds.subrange(0, i) =~= ds);
    }
}

/// Where the derived parts as a whole apply without panic and a prefix without error, the next
/// one applies without panic.
proof fn lemma_derived_prefix(t: SpecDtype, ds: Seq<DerivedDeclarator>, i: int)
    requires
        0 <= i < ds.len(),
        derived_spec(t, ds) is Some,
        derived_spec(t, ds.subrange(0, i)) matches Some(Ok(_)),
    ensures
        derived_spec(t, ds.subrange(0, i + 1)) is Some,
    decreases ds.len(),
{
    let init = ds.subrange(0, ds.len() - 1);
    if i + 1 < ds.len() {
        assert(init.subrange(0, i) =~= ds.subrange(0, i));
        assert(init.subrange(0, i + 1) =~= ds.subrange(0, i + 1));
        lemma_derived_prefix(t, init, i);
    } else {
        assert(ds.subrange(0, i + 1) =~= ds);
    }
}

/// Where a prefix of the derived parts fails, the whole fails the same way.
proof fn lemma_derived_stop(t: SpecDtype, ds: Seq<DerivedDeclarator>, i: int)
    requires
        0 <= i <= ds.len(),
        derived_spec(t, ds.subrange(0, i)) matches Some(Err(_)),
    ensures
        derived_spec(t, ds) == derived_spec(t, ds.subrange(0, i)),
    decreases ds.len() - i,
{
    if i < ds.len() {
        assert(ds.subrange(0, i + 1).subrange(0, i) =~= ds.subrange(0, i));
        lemma_derived_stop(t, ds, i + 1);
    } else {
        assert(ds.subrange(0, i) =~= ds);
    }
}

/// Where the parameters as a whole are formed without panic and a prefix without error, the
/// next one is formed without panic.
proof fn lemma_parameters_prefix(ps: Seq<ParameterDeclaration>, i: int)
    requires
        0 <= i < ps.len(),
        parameters_spec(ps) is Some,
        parameters_spec(ps.subrange(0, i)) matches Some(Ok(_)),
    ensures
        parameter_spec(ps[i]) is Some,
    decreases ps.len(),
{
    let init = ps.subrange(0, ps.len() - 1);
    if i + 1 < ps.len() {
        assert(init.subrange(0, i) =~= ps.subrange(0, i));
        assert(init[i] == ps[i]);
        lemma_parameters_prefix(init, i);
    } else {
        assert(init =~= ps.subrange(0, i));
    }
}

/// Where a prefix of the parameters fails, the whole fails the same way.
proof fn lemma_parameters_stop(ps: Seq<ParameterDeclaration>, i: int)
    requires
        0 <= i <= ps.len(),
        parameters_spec(ps.subrange(0, i)) matches Some(Err(_)),
    ensures
        parameters_spec(ps) == parameters_spec(ps.subrange(0, i)),
    decreases ps.len() - i,
{
    if i < ps.len() {
        assert(ps.subrange(0, i + 1).subrange(0, i) =~= ps.subrange(0, i));
        lemma_parameters_stop(ps, i + 1);
    } else {
        assert(ps.subrange(0, i) =~= ps);
    }
}

/// Where pointer qualifiers as a whole apply, so does each prefix and the one after it.
proof fn lemma_pointer_qualifiers_prefix(m: BaseModel, pqs: Seq<PointerQualifier>, i: int)
    requires
        0 <= i < pqs.len(),
        apply_pointer_qualifiers_spec(m, pqs) is Some,
    ensures
        apply_pointer_qualifiers_spec(m, pqs.take(i)) is Some,
        apply_pointer_qualifier_spec(apply_pointer_qualifiers_spec(m, pqs.take(i)).unwrap(), pqs[i]) matches Some(
            Ok(_),
        ),
    decreases pqs.len(),
{
    if i + 1 < pqs.len() {
        assert(pqs.drop_last().take(i) =~= pqs.take(i));
        assert(pqs.drop_last()[i] == pqs[i]);
        lemma_pointer_qualifiers_prefix(m, pqs.drop_last(), i);
    } else {
        assert(pqs.drop_last() =~= pqs.take(i));
    }
}


/// A prefix of digits that have a value has a value, and no larger one.
proof fn lemma_digits_prefix(s: Seq<char>, radix: nat, k: int)
    requires
        0 <= k <= s.len(),
        radix >= 1,
    ensures
        digits_value(s, radix) matches Some(w) ==> (digits_value(s.take(k), radix) matches Some(u) && u <= w),
    decreases s.len(),
{
    if k < s.len() {
        assert(s.drop_last().take(k) =~= s.take(k));
        lemma_digits_prefix(s.drop_last(), radix, k);
        if let Some(w) = digits_value(s, radix) {
            let v = digits_value(s.drop_last(), radix).unwrap();
            assert(v * radix + digit_value(s.last()).unwrap() >= v) by (nonlinear_arith)
                requires
                    radix >= 1,
            ;
        }
    } else {
        assert(s.take(k) =~= s);
    }
}

/// Where a prefix of the text has no value, the text has none.
proof fn lemma_digits_stop(s: Seq<char>, radix: nat, k: int)
    requires
        0 <= k <= s.len(),
        digits_value(s.take(k), radix) is None,
    ensures
        digits_value(s, radix) is None,
    decreases s.len() - k,
{
    if k < s.len() {
        assert(s.take(k + 1).drop_last() =~= s.take(k));
        lemma_digits_stop(s, radix, k + 1);
    } else {
        assert(s.take(k) =~= s);
    }
}

/// The value of a digit character in base `radix`, if it is one.
fn digit_of(c: char, radix: u32) -> (r: Option<u32>)
    requires
        2 <= radix <= 36,
    ensures
        r == (match digit_value(c) {
            Some(d) => if d < radix {
                Some(d as u32)
            } else {
                None
            },
            None => None,
        }),
{
    let d: u32 = if '0' <= c && c <= '9' {
        (c as u32) - ('0' as u32)
    } else if 'a' <= c && c <= 'z' {
        (c as u32) - ('a' as u32) + 10
    } else if 'A' <= c && c <= 'Z' {
        (c as u32) - ('A' as u32) + 10
    } else {
        return None;
    };
    if d < radix {
        Some(d)
    } else {
        None
    }
}

/// Parses a text as a `u128` in base `radix`: digits, optionally after a `+`.
pub fn parse_u128_radix(text: &String, radix: u32) -> (r: Option<u128>)
    requires
        2 <= radix <= 36,
    ensures
        r == parse_u128(text@, radix as nat),
{
    let s = text.as_str();
    let len = s.unicode_len();
    let start: usize = if len > 0 && s.get_char(0) == '+' {
        1
    } else {
        0
    };
    let ghost digits = text@.subrange(start as int, text@.len() as int);
    proof {
        if text@.len() > 0 && text@[0] == '+' {
            assert(digits =~= text@.drop_first());
        } else {
            assert(digits =~= text@);
        }
    }
    if start == len {
        return None;
    }
    let mut value: u128 = 0;
    let mut i: usize = start;
    assert(digits.take(0) =~= seq![]);
    while i < len
        invariant
            start <= i <= len,
            len == text@.len(),
            s@ == text@,
            2 <= radix <= 36,
            digits == text@.subrange(start as int, text@.len() as int),
            digits == (if text@.len() > 0 && text@[0] == '+' {
                text@.drop_first()
            } else {
                text@
            }),
            digits.len() > 0,
            digits_value(digits.take(i - start), radix as nat) == Some(value as nat),
        decreases len - i,
    {
        let c = s.get_char(i);
        let ghost k = i - start;
        proof {
            assert(digits.take(k + 1).drop_last() =~= digits.take(k));
            assert(digits.take(k + 1).last() == c);
        }
        match digit_of(c, radix) {
            None => {
                proof {
                    lemma_digits_stop(digits, radix as nat, k + 1);
                }
                return None;
            },
            Some(d) => {
                let next = match value.checked_mul(radix as u128) {
                    Some(m) => m.checked_add(d as u128),
                    None => None,
                };
                match next {
                    Some(n) => {
                        value = n;
                    },
                    None => {
                        proof {
                            assert(value * radix + d > u128::MAX) by (nonlinear_arith)
                                requires
                                    value * radix > u128::MAX || value * radix + d > u128::MAX,
                                    d >= 0,
                            ;
                            lemma_digits_prefix(digits, radix as nat, k + 1);
                        }
                        return None;
                    },
                }
            },
        }
        i = i + 1;
    }
    assert(digits.take(i - start) =~= digits);
    Some(value)
}

/// The integer value, width and signedness of an integer literal; signed unless it has the `u`
/// suffix or its value has the sign bit of its width set.
fn try_from_ast_integer(integer: &crate::c::ast::Integer) -> (r: Option<(u128, usize, bool)>)
    requires
        constant_int_spec(AstConstant::Integer(*integer)) is Some,
    ensures
        Some(r) == constant_int_spec(AstConstant::Integer(*integer)),
{
    let width: usize = match integer.size {
        IntegerSize::Int => 32,
        IntegerSize::Long => 64,
        IntegerSize::LongLong => 64,
    };
    let radix: u32 = match integer.base {
        IntegerBase::Decimal => 10,
        IntegerBase::Octal => 8,
        IntegerBase::Hexadecimal => 16,
        IntegerBase::Binary => 10,
    };
    let value = parse_u128_radix(&integer.number, radix).unwrap();
    let threshold: u128 = 1u128 << ((width - 1) as u128);
    proof {
        lemma_shl_one_is_pow2((width - 1) as u128);
    }
    let is_signed = !integer.unsigned && value < threshold;
    Some((value, width, is_signed))
}

/// The integer value, width and signedness of a constant, `None` for a floating-point constant.
pub fn constant_int_of_ast_constant(constant: &AstConstant) -> (r: Option<(u128, usize, bool)>)
    requires
        constant_int_spec(*constant) is Some,
    ensures
        Some(r) == constant_int_spec(*constant),
{
    match constant {
        AstConstant::Integer(integer) => try_from_ast_integer(integer),
        AstConstant::Float(_) => None,
        AstConstant::Character(character) => {
            let c = character.as_str().get_char(0);
            Some(((c as u32) as u128, 8, true))
        },
    }
}

/// The integer value, width and signedness of a constant expression (`None` inside for a
/// floating-point one), `Err` for an expression that is no constant: a constant, or a constant
/// under `+` or `-`.
pub fn constant_int_of_expression(expr: &Expression) -> (r: Result<Option<(u128, usize, bool)>, ()>)
    requires
        expression_int_spec(*expr) is Some,
    ensures
        Some(r) == expression_int_spec(*expr),
    decreases expr,
{
    match expr {
        Expression::Constant(constant) => Ok(constant_int_of_ast_constant(constant)),
        Expression::UnaryOperator { operator, operand } => {
            let v = match constant_int_of_expression(operand) {
                Ok(v) => v,
                Err(e) => {
                    return Err(e);
                },
            };
            match operator {
                crate::c::ast::UnaryOperator::Minus => match v {
                    Some((value, width, is_signed)) => {
                        let c = Constant::Int { value, width, is_signed }.minus();
                        Ok(c.get_int())
                    },
                    None => Ok(None),
                },
                crate::c::ast::UnaryOperator::Plus => Ok(v),
                crate::c::ast::UnaryOperator::Other => Err(()),
            }
        },
        Expression::Other => Err(()),
    }
}


/// The type a type name names: the specifiers' type with the declarator applied.
pub open spec fn typename_spec(typename: TypeName) -> Option<Result<SpecDtype, Seq<char>>> {
    match apply_specifier_qualifiers_spec(empty_base(), typename.specifiers@) {
        Some(Ok(m)) => match base_dtype_spec(m) {
            Some(Ok(t)) => match typename.declarator {
                Some(decl) => match with_declarator_spec(t, decl) {
                    Some(Ok((_, t2))) => Some(Ok(t2)),
                    Some(Err(e)) => Some(Err(e)),
                    None => None,
                },
                None => Some(Ok(t)),
            },
            other => other,
        },
        Some(Err((_, e))) => Some(Err(e)),
        None => None,
    }
}

/// The type that declaration specifiers name, and whether they say `typedef`.
pub open spec fn declaration_specifiers_dtype_spec(dss: Seq<DeclarationSpecifier>) -> Option<
    Result<(SpecDtype, bool), Seq<char>>,
> {
    match apply_declaration_specifiers_spec(empty_base(), dss) {
        Some(Ok(m)) => match base_dtype_spec(m) {
            Some(Ok(t)) => Some(Ok((t, m.is_typedef))),
            Some(Err(e)) => Some(Err(e)),
            None => None,
        },
        Some(Err((_, e))) => Some(Err(e)),
        None => None,
    }
}

/// A data type result agrees with a result of the model.
pub open spec fn dtype_result(r: Result<Dtype, DtypeError>, s: Result<SpecDtype, Seq<char>>) -> bool {
    match s {
        Ok(d) => r matches Ok(x) && x@ == d,
        Err(e) => r matches Err(err) && err.message() == e,
    }
}

/// A field list result agrees with a result of the model.
pub open spec fn fields_result(r: Result<Vec<Named<Dtype>>, DtypeError>, s: Result<Seq<SpecField>, Seq<char>>) -> bool {
    match s {
        Ok(fs) => r matches Ok(x) && fields_view(x@) == fs,
        Err(e) => r matches Err(err) && err.message() == e,
    }
}

/// A named type result agrees with a result of the model.
pub open spec fn field_result(r: Result<Named<Dtype>, DtypeError>, s: Result<SpecField, Seq<char>>) -> bool {
    match s {
        Ok(f) => r matches Ok(x) && field_view(x) == f,
        Err(e) => r matches Err(err) && err.message() == e,
    }
}

impl Dtype {
    /// The struct type `struct_type`, which `spec` holds: a type specifier other than `const`
    /// beside it is an error, and so are two fields of the same name.
    #[verifier::loop_isolation(false)]
    fn try_from_struct_type(spec: &BaseDtype, struct_type: &StructType) -> (r: Result<Dtype, DtypeError>)
        requires
            struct_dtype_spec(*struct_type, spec@) is Some,
        ensures
            dtype_result(r, struct_dtype_spec(*struct_type, spec@).unwrap()),
        decreases struct_type,
    {
        if !(spec.scalar.is_none() && spec.size_modifiers.len() == 0 && spec.signed_option.is_none()) {
            return Err(misc("`struct` can only be used with `const`"));
        }
        let struct_name = clone_name(&struct_type.identifier);
        let fields = match &struct_type.declarations {
            Some(declarations) => {
                let mut fields: Vec<Named<Dtype>> = Vec::new();
                let mut i: usize = 0;
                assert(declarations@.subrange(0, 0) =~= seq![]);
                assert(fields_view(fields@) =~= seq![]);
                while i < declarations.len()
                    invariant
                        i <= declarations@.len(),
                        struct_type.declarations == Some(*declarations),
                        struct_declarations_spec(declarations@) is Some,
                        struct_declarations_spec(declarations@.subrange(0, i as int)) == Some(
                            Ok::<Seq<SpecField>, Seq<char>>(fields_view(fields@)),
                        ),
                    decreases declarations@.len() - i,
                {
                    proof {
                        lemma_struct_declarations_prefix(declarations@, i as int);
                        let next = declarations@.subrange(0, i + 1);
                        assert(next.subrange(0, next.len() - 1) =~= declarations@.subrange(0, i as int));
                        assert(next[next.len() - 1] == declarations@[i as int]);
                        assert(decreases_to!(*struct_type => struct_type.declarations));
                        assert(decreases_to!(struct_type.declarations => struct_type.declarations->0));
                        assert(decreases_to!(struct_type.declarations->0 => declarations@));
                        assert(decreases_to!(declarations@ => declarations@[i as int]));
                    }
                    match Dtype::try_from_ast_struct_declaration(&declarations[i]) {
                        Ok(fs) => {
                            let ghost before = fields@;
                            let mut fs = fs;
                            let ghost added = fs@;
                            fields.append(&mut fs);
                            assert(fields_view(fields@) =~= fields_view(before) + fields_view(added));
                        },
                        Err(e) => {
                            proof {
                                lemma_struct_declarations_stop(declarations@, i + 1);
                            }
                            return Err(e);
                        },
                    }
                    i = i + 1;
                }
                assert(declarations@.subrange(0, i as int) =~= declarations@);
                Some(fields)
            },
            None => None,
        };
        if let Some(fields) = &fields {
            let mut field_names: Vec<String> = Vec::new();
            assert(strings_view(field_names@) =~= seq![]);
            if !check_no_duplicate_field(fields, &mut field_names) {
                return Err(misc("struct has duplicate field name"));
            }
        }
        Ok(Self::structure(struct_name, fields).set_const(spec.is_const))
    }

    /// The type specifiers name: by a typedef name, a struct type, or a scalar type.
    fn try_from_base_ref(spec: &BaseDtype) -> (r: Result<Dtype, DtypeError>)
        requires
            spec@.typedef_name is Some || spec@.struct_type is None,
            base_dtype_spec(spec@) is Some,
        ensures
            dtype_result(r, base_dtype_spec(spec@).unwrap()),
    {
        Self::try_from_nonstruct_base(spec)
    }

    /// The type that specifiers name: a typedef name with at most `const`, a struct type with its
    /// fields, or a scalar type with its size and signedness. Errors where specifiers conflict.
    pub fn try_from_base_dtype(spec: BaseDtype) -> (r: Result<Dtype, DtypeError>)
        requires
            base_dtype_spec(spec@) is Some,
        ensures
            dtype_result(r, base_dtype_spec(spec@).unwrap()),
    {
        if spec.typedef_name.is_some() || spec.struct_type.is_none() {
            Self::try_from_base_ref(&spec)
        } else {
            Self::try_from_struct_type(&spec, spec.struct_type.unwrap())
        }
    }

    /// The fields a struct declaration declares: each declarator applied to the specifiers'
    /// type; without declarator, an anonymous struct gives one anonymous field.
    #[verifier::loop_isolation(false)]
    pub fn try_from_ast_struct_declaration(declaration: &StructDeclaration) -> (r: Result<
        Vec<Named<Dtype>>,
        DtypeError,
    >)
        requires
            struct_declaration_spec(*declaration) is Some,
        ensures
            fields_result(r, struct_declaration_spec(*declaration).unwrap()),
        decreases declaration,
    {
        let field_decl = match declaration {
            StructDeclaration::Field(field_decl) => field_decl,
            StructDeclaration::StaticAssert => {
                return Ok(Vec::new());
            },
        };
        let mut spec = BaseDtype::new();
        match spec.apply_specifier_qualifiers(&field_decl.specifiers) {
            Ok(()) => {},
            Err(e) => {
                return Err(e);
            },
        }
        let dtype = if spec.typedef_name.is_some() || spec.struct_type.is_none() {
            Self::try_from_nonstruct_base(&spec)
        } else {
            let struct_type = spec.struct_type.unwrap();
            proof {
                lemma_specifier_qualifiers_struct(field_decl.specifiers@);
                let k = choose|k: int|
                    0 <= k < field_decl.specifiers@.len() && field_decl.specifiers@[k]
                        == SpecifierQualifier::TypeSpecifier(TypeSpecifier::Struct(*struct_type));
                assert(decreases_to!(*declaration => declaration->Field_0));
                assert(decreases_to!(*field_decl => field_decl.specifiers));
                assert(decreases_to!(field_decl.specifiers => field_decl.specifiers@));
                assert(decreases_to!(field_decl.specifiers@ => field_decl.specifiers@[k]));
                let sq = field_decl.specifiers@[k];
                assert(decreases_to!(sq => sq->TypeSpecifier_0));
                assert(decreases_to!(sq->TypeSpecifier_0 => sq->TypeSpecifier_0->Struct_0));
            }
            Self::try_from_struct_type(&spec, struct_type)
        };
        let dtype = match dtype {
            Ok(d) => d,
            Err(e) => {
                return Err(e);
            },
        };
        let ghost t = dtype@;
        let declarators = &field_decl.declarators;
        let mut fields: Vec<Named<Dtype>> = Vec::new();
        let mut i: usize = 0;
        assert(declarators@.subrange(0, 0) =~= seq![]);
        assert(fields_view(fields@) =~= seq![]);
        while i < declarators.len()
            invariant
                i <= declarators@.len(),
                *declarators == field_decl.declarators,
                t == dtype@,
                field_declarators_spec(t, declarators@) is Some,
                field_declarators_spec(t, declarators@.subrange(0, i as int)) == Some(
                    Ok::<Seq<SpecField>, Seq<char>>(fields_view(fields@)),
                ),
            decreases declarators@.len() - i,
        {
            proof {
                lemma_field_declarators_prefix(t, declarators@, i as int);
                let next = declarators@.subrange(0, i + 1);
                assert(next.subrange(0, next.len() - 1) =~= declarators@.subrange(0, i as int));
                assert(next[next.len() - 1] == declarators@[i as int]);
            }
            let declarator = match &declarators[i].declarator {
                Some(declarator) => declarator,
                None => {
                    return Ok(Vec::new());
                },
            };
            proof {
                assert(decreases_to!(*declaration => declaration->Field_0));
                assert(decreases_to!(*field_decl => field_decl.declarators));
                assert(decreases_to!(field_decl.declarators => declarators@));
                assert(decreases_to!(declarators@ => declarators@[i as int]));
                assert(decreases_to!(declarators@[i as int] => declarators@[i as int].declarator));
                assert(decreases_to!(declarators@[i as int].declarator => *declarator));
            }
            match dtype.clone().with_ast_declarator(declarator) {
                Ok(named) => {
                    let ghost before = fields@;
                    fields.push(named);
                    assert(fields_view(fields@) =~= fields_view(before).push(field_view(named)));
                },
                Err(e) => {
                    proof {
                        lemma_field_declarators_stop(t, declarators@, i + 1);
                    }
                    return Err(e);
                },
            }
            i = i + 1;
        }
        assert(declarators@.subrange(0, i as int) =~= declarators@);
        if fields.len() == 0 {
            let anonymous = match &dtype {
                Dtype::Struct { name: None, .. } => true,
                _ => false,
            };
            if anonymous {
                let r = vec![Named::new(None, dtype.set_const(false))];
                assert(fields_view(r@) =~= seq![(None::<Seq<char>>, spec_set_const(t, false))]);
                return Ok(r);
            }
            return Err(misc("declaration does not declare anything"));
        }
        Ok(fields)
    }

    /// The name a declarator declares and the type it forms from `self`: pointers, arrays and
    /// functions applied in order, then a parenthesized declarator applied to the result.
    #[verifier::loop_isolation(false)]
    pub fn with_ast_declarator(self, declarator: &Declarator) -> (r: Result<Named<Dtype>, DtypeError>)
        requires
            with_declarator_spec(self@, *declarator) is Some,
        ensures
            field_result(r, with_declarator_spec(self@, *declarator).unwrap()),
        decreases declarator,
    {
        let ghost t0 = self@;
        let derived = &declarator.derived;
        let mut cur = self;
        let mut i: usize = 0;
        assert(derived@.subrange(0, 0) =~= seq![]);
        while i < derived.len()
            invariant
                i <= derived@.len(),
                *derived == declarator.derived,
                derived_spec(t0, derived@) is Some,
                derived_spec(t0, derived@.subrange(0, i as int)) == Some(Ok::<SpecDtype, Seq<char>>(cur@)),
            decreases derived@.len() - i,
        {
            let ghost c = cur@;
            proof {
                lemma_derived_prefix(t0, derived@, i as int);
                let next = derived@.subrange(0, i + 1);
                assert(next.subrange(0, next.len() - 1) =~= derived@.subrange(0, i as int));
                assert(next[next.len() - 1] == derived@[i as int]);
            }
            let next = match &derived[i] {
                DerivedDeclarator::Pointer(pointer_qualifiers) => {
                    let mut specifier = BaseDtype::new();
                    let mut j: usize = 0;
                    assert(pointer_qualifiers@.take(0) =~= seq![]);
                    while j < pointer_qualifiers.len()
                        invariant
                            j <= pointer_qualifiers@.len(),
                            apply_pointer_qualifiers_spec(empty_base(), pointer_qualifiers@) is Some,
                            apply_pointer_qualifiers_spec(empty_base(), pointer_qualifiers@.take(j as int)) == Some(
                                specifier@,
                            ),
                        decreases pointer_qualifiers@.len() - j,
                    {
                        proof {
                            lemma_pointer_qualifiers_prefix(empty_base(), pointer_qualifiers@, j as int);
                            assert(pointer_qualifiers@.take(j + 1).drop_last() =~= pointer_qualifiers@.take(
                                j as int,
                            ));
                            assert(pointer_qualifiers@.take(j + 1).last() == pointer_qualifiers@[j as int]);
                        }
                        let _ = specifier.apply_pointer_qualifier(&pointer_qualifiers[j]);
                        j = j + 1;
                    }
                    assert(pointer_qualifiers@.take(j as int) =~= pointer_qualifiers@);
                    let d = Self::pointer(cur).set_const(specifier.is_const);
                    assert(derived_spec(t0, derived@.subrange(0, i + 1)) == Some(Ok::<SpecDtype, Seq<char>>(d@)));
                    Ok(d)
                },
                DerivedDeclarator::Array(array_decl) => cur.with_ast_array_size(&array_decl.size),
                DerivedDeclarator::Function(func_decl) => {
                    let parameters = &func_decl.parameters;
                    let mut params: Vec<Dtype> = Vec::new();
                    let mut j: usize = 0;
                    assert(parameters@.subrange(0, 0) =~= seq![]);
                    assert(dtypes_view(params@) =~= seq![]);
                    while j < parameters.len()
                        invariant
                            j <= parameters@.len(),
                            parameters_spec(parameters@) is Some,
                            parameters_spec(parameters@.subrange(0, j as int)) == Some(
                                Ok::<Seq<SpecDtype>, Seq<char>>(dtypes_view(params@)),
                            ),
                        decreases parameters@.len() - j,
                    {
                        proof {
                            lemma_parameters_prefix(parameters@, j as int);
                            let next = parameters@.subrange(0, j + 1);
                            assert(next.subrange(0, next.len() - 1) =~= parameters@.subrange(0, j as int));
                            assert(next[next.len() - 1] == parameters@[j as int]);
                            assert(decreases_to!(*declarator => declarator.derived));
                            assert(decreases_to!(declarator.derived => derived@));
                            assert(decreases_to!(derived@ => derived@[i as int]));
                            assert(decreases_to!(derived@[i as int] => derived@[i as int]->Function_0));
                            assert(decreases_to!(*func_decl => func_decl.parameters));
                            assert(decreases_to!(func_decl.parameters => parameters@));
                            assert(decreases_to!(parameters@ => parameters@[j as int]));
                        }
                        match Self::try_from_parameter_declaration(&parameters[j]) {
                            Ok(d) => {
                                let ghost before = params@;
                                params.push(d);
                                assert(dtypes_view(params@) =~= dtypes_view(before).push(d@));
                            },
                            Err(e) => {
                                proof {
                                    lemma_parameters_stop(parameters@, j + 1);
                                    lemma_derived_stop(t0, derived@, i + 1);
                                }
                                return Err(e);
                            },
                        }
                        j = j + 1;
                    }
                    assert(parameters@.subrange(0, j as int) =~= parameters@);
                    if params.len() == 1 && params[0].equals(&Self::unit()) {
                        let _ = params.pop();
                        assert(dtypes_view(params@) =~= seq![]);
                    }
                    let d = Self::function(cur, params);
                    assert(derived_spec(t0, derived@.subrange(0, i + 1)) == Some(Ok::<SpecDtype, Seq<char>>(d@)));
                    Ok(d)
                },
                DerivedDeclarator::KRFunction(_) => {
                    let no_params: Vec<Dtype> = Vec::new();
                    assert(dtypes_view(no_params@) =~= seq![]);
                    let d = Self::function(cur, no_params);
                    assert(derived_spec(t0, derived@.subrange(0, i + 1)) == Some(Ok::<SpecDtype, Seq<char>>(d@)));
                    Ok(d)
                },
            };
            match next {
                Ok(d) => {
                    assert(derived_spec(t0, derived@.subrange(0, i + 1)) == Some(Ok::<SpecDtype, Seq<char>>(d@)));
                    cur = d;
                },
                Err(e) => {
                    proof {
                        lemma_derived_stop(t0, derived@, i + 1);
                    }
                    return Err(e);
                },
            }
            i = i + 1;
        }
        assert(derived@.subrange(0, i as int) =~= derived@);
        match &declarator.kind {
            DeclaratorKind::Abstract => Ok(Named::new(None, cur)),
            DeclaratorKind::Identifier(identifier) => Ok(Named::new(Some(identifier.clone()), cur)),
            DeclaratorKind::Declarator(inner) => {
                proof {
                    assert(decreases_to!(*declarator => declarator.kind));
                    assert(decreases_to!(declarator.kind => **inner));
                }
                cur.with_ast_declarator(inner)
            },
        }
    }

    /// `self` as the element type of an array whose size is the constant expression
    /// `array_size`; a size that is no integer, or a negative one, is an error.
    pub fn with_ast_array_size(self, array_size: &ArraySize) -> (r: Result<Dtype, DtypeError>)
        requires
            array_size_spec(self@, *array_size) is Some,
        ensures
            dtype_result(r, array_size_spec(self@, *array_size).unwrap()),
    {
        let expr = match array_size {
            ArraySize::VariableExpression(expr) => expr,
            _ => {
                return Err(misc(""));
            },
        };
        match constant_int_of_expression(expr) {
            Ok(Some((value, _, is_signed))) => {
                proof {
                    super::interp::lemma_as_i128(value);
                }
                if is_signed && (value as i128) < 0 {
                    return Err(misc("declared as an array with a negative size"));
                }
                Ok(Self::array(self, value as usize))
            },
            Ok(None) => Err(misc("expression is not an integer constant expression")),
            Err(()) => Err(misc("")),
        }
    }

    /// The type of a parameter declaration: the specifiers' type with the declarator applied;
    /// an array becomes a pointer to its elements.
    pub fn try_from_parameter_declaration(parameter_decl: &ParameterDeclaration) -> (r: Result<
        Dtype,
        DtypeError,
    >)
        requires
            parameter_spec(*parameter_decl) is Some,
        ensures
            dtype_result(r, parameter_spec(*parameter_decl).unwrap()),
        decreases parameter_decl,
    {
        let mut spec = BaseDtype::new();
        match spec.apply_declaration_specifiers(&parameter_decl.specifiers) {
            Ok(()) => {},
            Err(e) => {
                return Err(e);
            },
        }
        let dtype = if spec.typedef_name.is_some() || spec.struct_type.is_none() {
            Self::try_from_nonstruct_base(&spec)
        } else {
            let struct_type = spec.struct_type.unwrap();
            proof {
                lemma_declaration_specifiers_struct(parameter_decl.specifiers@);
                let k = choose|k: int|
                    0 <= k < parameter_decl.specifiers@.len() && parameter_decl.specifiers@[k]
                        == DeclarationSpecifier::TypeSpecifier(TypeSpecifier::Struct(*struct_type));
                assert(decreases_to!(*parameter_decl => parameter_decl.specifiers));
                assert(decreases_to!(parameter_decl.specifiers => parameter_decl.specifiers@));
                assert(decreases_to!(parameter_decl.specifiers@ => parameter_decl.specifiers@[k]));
                let ds = parameter_decl.specifiers@[k];
                assert(decreases_to!(ds => ds->TypeSpecifier_0));
                assert(decreases_to!(ds->TypeSpecifier_0 => ds->TypeSpecifier_0->Struct_0));
            }
            Self::try_from_struct_type(&spec, struct_type)
        };
        let dtype = match dtype {
            Ok(d) => d,
            Err(e) => {
                return Err(e);
            },
        };
        match &parameter_decl.declarator {
            Some(declarator) => {
                proof {
                    assert(decreases_to!(*parameter_decl => parameter_decl.declarator));
                    assert(decreases_to!(parameter_decl.declarator => *declarator));
                }
                match dtype.with_ast_declarator(declarator) {
                    Ok(named) => match named.inner {
                        Dtype::Array { inner, .. } => Ok(Self::pointer(*inner)),
                        other => Ok(other),
                    },
                    Err(e) => Err(e),
                }
            },
            None => Ok(dtype),
        }
    }

    /// The type a type name names: the specifiers' type with the declarator applied.
    pub fn try_from_type_name(typename: &TypeName) -> (r: Result<Dtype, DtypeError>)
        requires
            typename_spec(*typename) is Some,
        ensures
            dtype_result(r, typename_spec(*typename).unwrap()),
    {
        let mut spec = BaseDtype::new();
        match spec.apply_specifier_qualifiers(&typename.specifiers) {
            Ok(()) => {},
            Err(e) => {
                return Err(e);
            },
        }
        let dtype = match Self::try_from_base_dtype(spec) {
            Ok(d) => d,
            Err(e) => {
                return Err(e);
            },
        };
        match &typename.declarator {
            Some(declarator) => match dtype.with_ast_declarator(declarator) {
                Ok(named) => Ok(named.inner),
                Err(e) => Err(e),
            },
            None => Ok(dtype),
        }
    }

    /// The type declaration specifiers name, and whether they say `typedef`.
    pub fn try_from_ast_declaration_specifiers(specifiers: &Vec<DeclarationSpecifier>) -> (r: Result<
        (Dtype, bool),
        DtypeError,
    >)
        requires
            declaration_specifiers_dtype_spec(specifiers@) is Some,
        ensures
            match declaration_specifiers_dtype_spec(specifiers@).unwrap() {
                Ok((d, is_typedef)) => r matches Ok(x) && x.0@ == d && x.1 == is_typedef,
                Err(e) => r matches Err(err) && err.message() == e,
            },
    {
        let mut spec = BaseDtype::new();
        match spec.apply_declaration_specifiers(specifiers) {
            Ok(()) => {},
            Err(e) => {
                return Err(e);
            },
        }
        let is_typedef = spec.is_typedef;
        match Self::try_from_base_dtype(spec) {
            Ok(d) => Ok((d, is_typedef)),
            Err(e) => Err(e),
        }
    }
}


/// The digits written by `decimal` read back as their value, whatever the leading one.
proof fn lemma_decimal_digits(n: nat)
    ensures
        digits_value(decimal(n), 10) == Some(n),
        decimal(n).len() > 0,
        decimal(n)[0] != '+',
    decreases n,
{
    let d = n % 10;
    assert(digit_value(digit_char(d)) == Some(d)) by {
        if d == 0 {} else if d == 1 {} else if d == 2 {} else if d == 3 {} else if d == 4 {}
        else if d == 5 {} else if d == 6 {} else if d == 7 {} else if d == 8 {} else {}
    }
    assert(digits_value(Seq::<char>::empty(), 10) == Some(0nat));
    if n < 10 {
        assert(decimal(n).drop_last() =~= Seq::<char>::empty());
        assert(decimal(n).last() == digit_char(d));
    } else {
        lemma_decimal_digits(n / 10);
        assert(decimal(n).drop_last() =~= decimal(n / 10));
        assert(decimal(n).last() == digit_char(d));
        assert(decimal(n)[0] == decimal(n / 10)[0]);
        assert((n / 10) * 10 + d == n);
    }
}

/// The digits written by `hex` read back as their value.
proof fn lemma_hex_digits(n: nat)
    ensures
        digits_value(hex(n), 16) == Some(n),
        hex(n).len() > 0,
        hex(n)[0] != '+',
    decreases n,
{
    let d = n % 16;
    assert(digit_value(hex_digit_char(d)) == Some(d)) by {
        if d == 0 {} else if d == 1 {} else if d == 2 {} else if d == 3 {} else if d == 4 {}
        else if d == 5 {} else if d == 6 {} else if d == 7 {} else if d == 8 {} else if d == 9 {}
        else if d == 10 {} else if d == 11 {} else if d == 12 {} else if d == 13 {} else if d == 14 {}
        else {}
    }
    assert(digits_value(Seq::<char>::empty(), 16) == Some(0nat));
    if n < 16 {
        assert(hex(n).drop_last() =~= Seq::<char>::empty());
        assert(hex(n).last() == hex_digit_char(d));
    } else {
        lemma_hex_digits(n / 16);
        assert(hex(n).drop_last() =~= hex(n / 16));
        assert(hex(n).last() == hex_digit_char(d));
        assert(hex(n)[0] == hex(n / 16)[0]);
        assert((n / 16) * 16 + d == n);
    }
}

/// An integer literal written in decimal reads back as its value.
pub proof fn lemma_parse_decimal(n: u128)
    ensures
        parse_u128(decimal(n as nat), 10) == Some(n),
{
    lemma_decimal_digits(n as nat);
}

/// An integer literal written in hexadecimal digits reads back as its value.
pub proof fn lemma_parse_hex(n: u128)
    ensures
        parse_u128(hex(n as nat), 16) == Some(n),
{
    lemma_hex_digits(n as nat);
}

} // verus!
