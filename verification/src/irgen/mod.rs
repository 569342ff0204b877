//! Translation of C declarations into global declarations of the intermediate representation.
use vstd::prelude::*;

pub mod func;

use crate::c::ast::{
    Declaration as AstDeclaration, Declarator, DeclaratorKind, Expression, FunctionHeader, InitDeclarator,
    Initializer, InitializerModel,
};
use crate::ir::dtype::{
    lemma_resolve_structs_by_name, spec_resolve_structs, spec_resolve_typedefs, structs_view, typedefs_view,
};
use crate::ir::dtype_ast::{declaration_specifiers_dtype_spec, with_declarator_spec, SpecField};
use crate::ir::program::{
    declaration_dtype, declaration_from_dtype, declarations_compatible, decls_view, DeclarationModel,
};
use crate::c::ast::{DerivedDeclarator, ParameterDeclaration};
use crate::ir::dtype::fields_view;
use crate::ir::{Declaration, Dtype, DtypeError, HasDtype, Operand, SpecDtype, TranslationUnit};
use crate::utils::StringMap;

verus! {

/// What went wrong in translating a piece of C.
#[derive(Debug)]
pub enum IrgenErrorMessage {
    /// For uncommon errors.
    Misc { message: String },
    NeedFunctionOrFunctionPointer { callee: Operand },
    Redefinition { name: String },
    ConflictingDtype { dtype: Dtype, protorype_dtype: Dtype },
    InvalidDtype { dtype_error: DtypeError },
    RequireLvalue { message: String },
}

/// An error of the translation: the code it arose in, and what went wrong.
#[derive(Debug)]
pub struct IrgenError {
    pub code: String,
    pub message: IrgenErrorMessage,
}

impl IrgenError {
    /// An error in `code`.
    pub fn new(code: String, message: IrgenErrorMessage) -> (r: Self)
        ensures
            r.code == code,
            r.message == message,
    {
        Self { code, message }
    }
}

/// The model of an error message: texts as character sequences, types by their models.
pub enum MessageModel {
    Misc(Seq<char>),
    NeedFunctionOrFunctionPointer,
    Redefinition(Seq<char>),
    ConflictingDtype(SpecDtype, SpecDtype),
    InvalidDtype(Seq<char>),
    RequireLvalue(Seq<char>),
}

/// The model of an error: its code and message.
pub struct ErrorModel {
    pub code: Seq<char>,
    pub message: MessageModel,
}

/// The model of an error message.
pub open spec fn message_view(m: IrgenErrorMessage) -> MessageModel {
    match m {
        IrgenErrorMessage::Misc { message } => MessageModel::Misc(message@),
        IrgenErrorMessage::NeedFunctionOrFunctionPointer { .. } => MessageModel::NeedFunctionOrFunctionPointer,
        IrgenErrorMessage::Redefinition { name } => MessageModel::Redefinition(name@),
        IrgenErrorMessage::ConflictingDtype { dtype, protorype_dtype } => MessageModel::ConflictingDtype(
            dtype@,
            protorype_dtype@,
        ),
        IrgenErrorMessage::InvalidDtype { dtype_error } => MessageModel::InvalidDtype(dtype_error.message()),
        IrgenErrorMessage::RequireLvalue { message } => MessageModel::RequireLvalue(message@),
    }
}

/// The model of an error.
pub open spec fn error_view(e: IrgenError) -> ErrorModel {
    ErrorModel { code: e.code@, message: message_view(e.message) }
}

/// The model of the translation state: declarations, type definitions and struct types by name,
/// and the counter that names anonymous structs.
pub struct IrgenModel {
    pub decls: Map<Seq<char>, DeclarationModel>,
    pub typedefs: Map<Seq<char>, SpecDtype>,
    pub structs: Map<Seq<char>, Option<SpecDtype>>,
    pub counter: nat,
}

/// A C file going through translation: the declarations, type definitions and struct types met
/// so far.
#[derive(Debug)]
pub struct Irgen {
    decls: StringMap<Declaration>,
    typedefs: StringMap<Dtype>,
    structs: StringMap<Option<Dtype>>,
    struct_tempid_counter: usize,
}

impl View for Irgen {
    type V = IrgenModel;

    closed spec fn view(&self) -> IrgenModel {
        IrgenModel {
            decls: decls_view(self.decls),
            typedefs: typedefs_view(self.typedefs),
            structs: structs_view(self.structs),
            counter: self.struct_tempid_counter as nat,
        }
    }
}

/// The name a declarator declares; `None` for an abstract declarator (the lookup panics).
pub open spec fn name_of_declarator_spec(d: Declarator) -> Option<Seq<char>>
    decreases d,
{
    match d.kind {
        DeclaratorKind::Abstract => None,
        DeclaratorKind::Identifier(id) => Some(id@),
        DeclaratorKind::Declarator(inner) => name_of_declarator_spec(*inner),
    }
}

/// Whether a struct type (which must be named and without fields) has no definition in
/// `structs`; other types are fine. `None` where the check panics.
pub open spec fn invalid_structure_spec(d: SpecDtype, structs: Map<Seq<char>, Option<SpecDtype>>) -> Option<bool> {
    match d {
        SpecDtype::Struct { name, fields, .. } => match name {
            Some(n) => if fields is Some {
                None
            } else {
                Some(!(structs.contains_key(n) && structs[n] is Some))
            },
            None => None,
        },
        _ => Some(false),
    }
}

/// Whether an initializer fits a type: a scalar takes a constant, possibly under `+` or `-`; an
/// array takes a list whose items fit its element type; a struct takes a list whose items fit
/// its fields, as far as both go. `None` where the check panics (a struct without definition).
pub open spec fn valid_initializer(init: InitializerModel, d: SpecDtype, structs: Map<Seq<char>, Option<SpecDtype>>) -> Option<bool>
    decreases init,
{
    match init {
        InitializerModel::Expression(e) => Some(
            (d is Int || d is Float || d is Pointer) && match e {
                Expression::Constant(_) => true,
                Expression::UnaryOperator { operator, .. } => operator is Minus || operator is Plus,
                Expression::Other => false,
            },
        ),
        InitializerModel::List(items) => match d {
            SpecDtype::Array { inner, .. } => valid_items(items, *inner, structs),
            SpecDtype::Struct { name, .. } => match name {
                Some(n) => if structs.contains_key(n) {
                    match structs[n] {
                        Some(SpecDtype::Struct { fields: Some(fs), .. }) => valid_field_items(items, fs, structs),
                        _ => None,
                    }
                } else {
                    None
                },
                None => None,
            },
            _ => Some(false),
        },
    }
}

/// Whether each item fits `d`, checked in order up to the first that does not.
pub open spec fn valid_items(items: Seq<InitializerModel>, d: SpecDtype, structs: Map<Seq<char>, Option<SpecDtype>>) -> Option<bool>
    decreases items,
{
    if items.len() == 0 {
        Some(true)
    } else {
        match valid_initializer(items[0], d, structs) {
            Some(true) => valid_items(items.subrange(1, items.len() as int), d, structs),
            other => other,
        }
    }
}

/// Whether each item fits the field in its place, checked in order up to the first that does
/// not, as far as both lists go.
pub open spec fn valid_field_items(items: Seq<InitializerModel>, fs: Seq<SpecField>, structs: Map<Seq<char>, Option<SpecDtype>>) -> Option<bool>
    decreases items,
{
    if items.len() == 0 || fs.len() == 0 {
        Some(true)
    } else {
        match valid_initializer(items[0], fs[0].1, structs) {
            Some(true) => valid_field_items(
                items.subrange(1, items.len() as int),
                fs.subrange(1, fs.len() as int),
                structs,
            ),
            other => other,
        }
    }
}

/// An error for the code `code`.
pub open spec fn error_at(code: Seq<char>, message: MessageModel) -> ErrorModel {
    ErrorModel { code, message }
}

/// Declares `name` as `decl`, replacing an earlier declaration; an earlier declaration that
/// does not agree with it is an error, reported on the name.
pub open spec fn add_decl_spec(st: IrgenModel, name: Seq<char>, decl: DeclarationModel) -> (IrgenModel, Result<(), ErrorModel>) {
    let st2 = IrgenModel { decls: st.decls.insert(name, decl), ..st };
    if st.decls.contains_key(name) && !declarations_compatible(st.decls[name], decl) {
        (
            st2,
            Err(
                error_at(
                    name,
                    MessageModel::ConflictingDtype(declaration_dtype(st.decls[name]), declaration_dtype(decl)),
                ),
            ),
        )
    } else {
        (st2, Ok(()))
    }
}

/// One declarator of a declaration of base type `base`: a type definition, or a declaration of
/// the name, with its initializer. Errors are reported on `code`, but for a conflicting earlier
/// declaration. `None` where the translation panics.
pub open spec fn declarator_step(
    st: IrgenModel,
    base: SpecDtype,
    is_typedef: bool,
    d: InitDeclarator,
    code: Seq<char>,
) -> Option<(IrgenModel, Result<(), ErrorModel>)> {
    match name_of_declarator_spec(d.declarator) {
        None => None,
        Some(name) => match with_declarator_spec(base, d.declarator) {
            None => None,
            Some(Err(e)) => Some((st, Err(error_at(code, MessageModel::InvalidDtype(e))))),
            Some(Ok((_, t))) => match spec_resolve_typedefs(t, st.typedefs) {
                None => None,
                Some(Err(e)) => Some((st, Err(error_at(code, MessageModel::InvalidDtype(e))))),
                Some(Ok(t2)) => if is_typedef {
                    let prev = if st.typedefs.contains_key(name) {
                        st.typedefs[name]
                    } else {
                        t2
                    };
                    let st2 = IrgenModel { typedefs: st.typedefs.insert(name, prev), ..st };
                    if prev != t2 {
                        Some((st2, Err(error_at(code, MessageModel::ConflictingDtype(t2, prev)))))
                    } else {
                        Some((st2, Ok(())))
                    }
                } else {
                    match invalid_structure_spec(t2, st.structs) {
                        None => None,
                        Some(true) => Some((st, Err(error_at(code, MessageModel::Misc("incomplete struct type"@))))),
                        Some(false) => match declaration_from_dtype(t2) {
                            None => None,
                            Some(Err(e)) => Some((st, Err(error_at(code, MessageModel::InvalidDtype(e))))),
                            Some(Ok(decl)) => match d.initializer {
                                Some(init) => match valid_initializer(init@, t2, st.structs) {
                                    None => None,
                                    Some(false) => Some(
                                        (st, Err(error_at(code, MessageModel::Misc("initializer is not valid"@)))),
                                    ),
                                    Some(true) => match decl {
                                        DeclarationModel::Variable { dtype, .. } => Some(
                                            add_decl_spec(
                                                st,
                                                name,
                                                DeclarationModel::Variable { dtype, initializer: Some(init@) },
                                            ),
                                        ),
                                        DeclarationModel::Function { .. } => Some(
                                            (
                                                st,
                                                Err(
                                                    error_at(
                                                        code,
                                                        MessageModel::Misc(
                                                            "illegal initializer (only variables can be initialized)"@,
                                                        ),
                                                    ),
                                                ),
                                            ),
                                        ),
                                    },
                                },
                                None => Some(add_decl_spec(st, name, decl)),
                            },
                        },
                    }
                },
            },
        },
    }
}

/// The declarators of a declaration, one after the other, up to the first error.
pub open spec fn declarators_spec(
    st: IrgenModel,
    base: SpecDtype,
    is_typedef: bool,
    ds: Seq<InitDeclarator>,
    code: Seq<char>,
) -> Option<(IrgenModel, Result<(), ErrorModel>)>
    decreases ds.len(),
{
    if ds.len() == 0 {
        Some((st, Ok(())))
    } else {
        match declarators_spec(st, base, is_typedef, ds.drop_last(), code) {
            Some((st2, Ok(()))) => declarator_step(st2, base, is_typedef, ds.last(), code),
            other => other,
        }
    }
}

/// A declaration: the base type of its specifiers with type names resolved; a struct name is
/// registered, and the definitions of a struct with fields collected; then its declarators.
pub open spec fn add_declaration_spec(st: IrgenModel, source: AstDeclaration, code: Seq<char>) -> Option<
    (IrgenModel, Result<(), ErrorModel>),
> {
    match declaration_specifiers_dtype_spec(source.specifiers@) {
        None => None,
        Some(Err(e)) => Some((st, Err(error_at(code, MessageModel::InvalidDtype(e))))),
        Some(Ok((base, is_typedef))) => match spec_resolve_typedefs(base, st.typedefs) {
            None => None,
            Some(Err(e)) => Some((st, Err(error_at(code, MessageModel::InvalidDtype(e))))),
            Some(Ok(b)) => match b {
                SpecDtype::Struct { name, fields, .. } => {
                    let st1 = match name {
                        Some(n) => if st.structs.contains_key(n) {
                            st
                        } else {
                            IrgenModel { structs: st.structs.insert(n, None), ..st }
                        },
                        None => st,
                    };
                    if fields is Some {
                        match spec_resolve_structs(b, st1.structs, st1.counter) {
                            None => None,
                            Some((res, structs2, c2)) => {
                                let st2 = IrgenModel { structs: structs2, counter: c2, ..st1 };
                                match res {
                                    Err(e) => Some((st2, Err(error_at(code, MessageModel::InvalidDtype(e))))),
                                    Ok(b2) => declarators_spec(st2, b2, is_typedef, source.declarators@, code),
                                }
                            },
                        }
                    } else {
                        declarators_spec(st1, b, is_typedef, source.declarators@, code)
                    }
                },
                _ => declarators_spec(st, b, is_typedef, source.declarators@, code),
            },
        },
    }
}


/// The header of a function definition: its name (and the names of its parameters, which must
/// be there), its type from the specifiers and the declarator with type names resolved, which
/// must be a function type (a type definition is an error), and then the function's
/// declaration. `None` where the translation panics.
pub open spec fn function_header_spec(st: IrgenModel, source: FunctionHeader, code: Seq<char>) -> Option<
    (IrgenModel, Result<(), ErrorModel>),
> {
    match name_of_declarator_spec(source.declarator) {
        None => None,
        Some(name) => match params_of_declarator_spec(source.declarator) {
            Some(Some(_)) => match declaration_specifiers_dtype_spec(source.specifiers@) {
                None => None,
                Some(Err(e)) => Some((st, Err(error_at(code, MessageModel::InvalidDtype(e))))),
                Some(Ok((base, is_typedef))) => if is_typedef {
                    Some((st, Err(error_at(code, MessageModel::Misc("function definition declared typedef"@)))))
                } else {
                    match with_declarator_spec(base, source.declarator) {
                        None => None,
                        Some(Err(e)) => Some((st, Err(error_at(code, MessageModel::InvalidDtype(e))))),
                        Some(Ok((_, t))) => match spec_resolve_typedefs(t, st.typedefs) {
                            None => None,
                            Some(Err(e)) => Some((st, Err(error_at(code, MessageModel::InvalidDtype(e))))),
                            Some(Ok(t2)) => match t2 {
                                SpecDtype::Function { ret, params } => Some(
                                    add_decl_spec(
                                        st,
                                        name,
                                        DeclarationModel::Function { ret: *ret, params, definition: None },
                                    ),
                                ),
                                _ => None,
                            },
                        },
                    }
                },
            },
            _ => None,
        },
    }
}


/// The name a declarator declares.
pub fn name_of_declarator(declarator: &Declarator) -> (r: String)
    requires
        name_of_declarator_spec(*declarator) is Some,
    ensures
        Some(r@) == name_of_declarator_spec(*declarator),
    decreases declarator,
{
    match &declarator.kind {
        DeclaratorKind::Abstract => String::new(),
        DeclaratorKind::Identifier(identifier) => identifier.clone(),
        DeclaratorKind::Declarator(inner) => {
            proof {
                assert(decreases_to!(*declarator => declarator.kind));
                assert(decreases_to!(declarator.kind => **inner));
            }
            name_of_declarator(inner)
        },
    }
}

/// Whether `dtype`, a struct type (named, without fields), has no definition in `structs`;
/// other types are fine.
fn is_invalid_structure(dtype: &Dtype, structs: &StringMap<Option<Dtype>>) -> (r: bool)
    requires
        structs.wf(),
        invalid_structure_spec(dtype@, structs_view(*structs)) is Some,
    ensures
        Some(r) == invalid_structure_spec(dtype@, structs_view(*structs)),
{
    match dtype {
        Dtype::Struct { name: Some(name), .. } => match structs.get(name) {
            Some(struct_type) => struct_type.is_none(),
            None => true,
        },
        _ => false,
    }
}

/// Whether `initializer` fits `dtype`: a scalar takes a constant, possibly under `+` or `-`; an
/// array takes a list whose items fit its element type; a struct takes a list whose items fit
/// its fields, as far as both go.
#[verifier::loop_isolation(false)]
fn is_valid_initializer(initializer: &Initializer, dtype: &Dtype, structs: &StringMap<Option<Dtype>>) -> (r:
    bool)
    requires
        structs.wf(),
        valid_initializer(initializer@, dtype@, structs_view(*structs)) is Some,
    ensures
        Some(r) == valid_initializer(initializer@, dtype@, structs_view(*structs)),
    decreases initializer,
{
    let ghost sv = structs_view(*structs);
    match initializer {
        Initializer::Expression(expr) => {
            let scalar = match dtype {
                Dtype::Int { .. } | Dtype::Float { .. } | Dtype::Pointer { .. } => true,
                _ => false,
            };
            scalar && match expr {
                Expression::Constant(_) => true,
                Expression::UnaryOperator { operator, .. } => match operator {
                    crate::c::ast::UnaryOperator::Minus | crate::c::ast::UnaryOperator::Plus => true,
                    _ => false,
                },
                Expression::Other => false,
            }
        },
        Initializer::List(items) => {
            let ghost models = initializer@->List_0;
            assert(models.len() == items@.len());
            match dtype {
                Dtype::Array { inner, .. } => {
                    let mut i: usize = 0;
                    assert(models.subrange(0, models.len() as int) =~= models);
                    while i < items.len()
                        invariant
                            i <= items@.len(),
                            valid_items(models, inner@, sv) is Some,
                            valid_items(models, inner@, sv) == valid_items(
                                models.subrange(i as int, models.len() as int),
                                inner@,
                                sv,
                            ),
                        decreases items@.len() - i,
                    {
                        let ghost rest = models.subrange(i as int, models.len() as int);
                        proof {
                            assert(rest[0] == items@[i as int]@);
                            assert(rest.subrange(1, rest.len() as int) =~= models.subrange(
                                i + 1,
                                models.len() as int,
                            ));
                            assert(decreases_to!(*initializer => initializer->List_0));
                            assert(decreases_to!(initializer->List_0 => items@));
                            assert(decreases_to!(items@ => items@[i as int]));
                        }
                        if !is_valid_initializer(&items[i], inner, structs) {
                            return false;
                        }
                        i = i + 1;
                    }
                    true
                },
                Dtype::Struct { name, .. } => {
                    let name = name.as_ref().unwrap();
                    let struct_type = structs.get(name).unwrap().as_ref().unwrap();
                    proof {
                        if *struct_type matches Dtype::Struct { fields: Some(_), .. } {
                            crate::ir::dtype::lemma_struct_fields_view(*struct_type);
                        }
                    }
                    let fields = match struct_type {
                        Dtype::Struct { fields: Some(fields), .. } => fields,
                        _ => {
                            return false;
                        },
                    };
                    let ghost fs = crate::ir::dtype::fields_view(fields@);
                    let mut i: usize = 0;
                    assert(models.subrange(0, models.len() as int) =~= models);
                    assert(fs.subrange(0, fs.len() as int) =~= fs);
                    while i < items.len() && i < fields.len()
                        invariant
                            i <= items@.len(),
                            i <= fields@.len(),
                            fs == crate::ir::dtype::fields_view(fields@),
                            valid_field_items(models, fs, sv) is Some,
                            valid_field_items(models, fs, sv) == valid_field_items(
                                models.subrange(i as int, models.len() as int),
                                fs.subrange(i as int, fs.len() as int),
                                sv,
                            ),
                        decreases items@.len() - i,
                    {
                        let ghost rest = models.subrange(i as int, models.len() as int);
                        let ghost rest_fs = fs.subrange(i as int, fs.len() as int);
                        proof {
                            assert(rest[0] == items@[i as int]@);
                            assert(rest_fs[0].1 == fields@[i as int].inner@);
                            assert(rest.subrange(1, rest.len() as int) =~= models.subrange(
                                i + 1,
                                models.len() as int,
                            ));
                            assert(rest_fs.subrange(1, rest_fs.len() as int) =~= fs.subrange(
                                i + 1,
                                fs.len() as int,
                            ));
                            assert(decreases_to!(*initializer => initializer->List_0));
                            assert(decreases_to!(initializer->List_0 => items@));
                            assert(decreases_to!(items@ => items@[i as int]));
                        }
                        if !is_valid_initializer(&items[i], &fields[i].inner, structs) {
                            return false;
                        }
                        i = i + 1;
                    }
                    true
                },
                _ => false,
            }
        },
    }
}

impl Irgen {
    /// The tables are well formed.
    pub closed spec fn wf(&self) -> bool {
        self.decls.wf() && self.typedefs.wf() && self.structs.wf()
    }

    /// Nothing declared yet.
    pub fn new() -> (r: Self)
        ensures
            r.wf(),
            r@.decls == Map::<Seq<char>, DeclarationModel>::empty(),
            r@.typedefs == Map::<Seq<char>, SpecDtype>::empty(),
            r@.structs == Map::<Seq<char>, Option<SpecDtype>>::empty(),
            r@.counter == 0,
    {
        let r = Irgen {
            decls: StringMap::new(),
            typedefs: StringMap::new(),
            structs: StringMap::new(),
            struct_tempid_counter: 0,
        };
        assert(r@.decls =~= Map::<Seq<char>, DeclarationModel>::empty());
        assert(r@.typedefs =~= Map::<Seq<char>, SpecDtype>::empty());
        assert(r@.structs =~= Map::<Seq<char>, Option<SpecDtype>>::empty());
        r
    }

    /// The program translated so far: its declarations and struct types.
    pub fn into_translation_unit(self) -> (r: TranslationUnit)
        requires
            self.wf(),
        ensures
            r.decls.wf(),
            r.structs.wf(),
            decls_view(r.decls) == self@.decls,
            structs_view(r.structs) == self@.structs,
    {
        TranslationUnit { decls: self.decls, structs: self.structs }
    }

    /// Declares `name` as `decl`, replacing an earlier declaration; an earlier declaration that
    /// does not agree with it is an error, reported on the name.
    pub fn add_decl(&mut self, name: &String, decl: Declaration) -> (r: Result<(), IrgenError>)
        requires
            old(self).wf(),
        ensures
            final(self).wf(),
            add_decl_spec(old(self)@, name@, decl@) == (final(self)@, match r {
                Ok(()) => Ok::<(), ErrorModel>(()),
                Err(e) => Err(error_view(e)),
            }),
    {
        let ghost before = decls_view(self.decls);
        let ghost d = decl@;
        let previous = self.decls.insert(name.clone(), decl);
        assert(decls_view(self.decls) =~= before.insert(name@, d));
        match previous {
            None => Ok(()),
            Some(old_decl) => {
                let decl = self.decls.get(name).unwrap();
                if !old_decl.is_compatible(decl) {
                    return Err(
                        IrgenError::new(
                            name.clone(),
                            IrgenErrorMessage::ConflictingDtype { dtype: old_decl.dtype(), protorype_dtype: decl.dtype() },
                        ),
                    );
                }
                Ok(())
            },
        }
    }
}


/// Where the declarators as a whole translate without panic and a prefix without error, the
/// next one translates without panic.
proof fn lemma_declarators_prefix(
    st: IrgenModel,
    base: SpecDtype,
    is_typedef: bool,
    ds: Seq<InitDeclarator>,
    code: Seq<char>,
    i: int,
)
    requires
        0 <= i < ds.len(),
        declarators_spec(st, base, is_typedef, ds, code) is Some,
        declarators_spec(st, base, is_typedef, ds.take(i), code) matches Some((_, Ok(_))),
    ensures
        declarator_step(
            declarators_spec(st, base, is_typedef, ds.take(i), code).unwrap().0,
            base,
            is_typedef,
            ds[i],
            code,
        ) is Some,
    decreases ds.len(),
{
    if i + 1 < ds.len() {
        assert(ds.drop_last().take(i) =~= ds.take(i));
        assert(ds.drop_last()[i] == ds[i]);
        lemma_declarators_prefix(st, base, is_typedef, ds.drop_last(), code, i);
    } else {
        assert(ds.drop_last() =~= ds.take(i));
    }
}

/// Where a prefix of the declarators fails, the whole fails the same way.
proof fn lemma_declarators_stop(
    st: IrgenModel,
    base: SpecDtype,
    is_typedef: bool,
    ds: Seq<InitDeclarator>,
    code: Seq<char>,
    i: int,
)
    requires
        0 <= i <= ds.len(),
        declarators_spec(st, base, is_typedef, ds.take(i), code) matches Some((_, Err(_))),
    ensures
        declarators_spec(st, base, is_typedef, ds, code) == declarators_spec(st, base, is_typedef, ds.take(i), code),
    decreases ds.len() - i,
{
    if i < ds.len() {
        assert(ds.take(i + 1).drop_last() =~= ds.take(i));
        lemma_declarators_stop(st, base, is_typedef, ds, code, i + 1);
    } else {
        assert(ds.take(i) =~= ds);
    }
}

/// The result of a translation step as its model.
pub open spec fn result_view(r: Result<(), IrgenError>) -> Result<(), ErrorModel> {
    match r {
        Ok(()) => Ok(()),
        Err(e) => Err(error_view(e)),
    }
}

/// An error with a message about `code`.
fn misc_error(code: &String, message: &str) -> (e: IrgenError)
    ensures
        error_view(e) == error_at(code@, MessageModel::Misc(message@)),
{
    IrgenError::new(code.clone(), IrgenErrorMessage::Misc { message: String::from_str(message) })
}

/// An error about `code` for a type that cannot be formed.
fn dtype_error(code: &String, e: DtypeError) -> (r: IrgenError)
    ensures
        error_view(r) == error_at(code@, MessageModel::InvalidDtype(e.message())),
{
    IrgenError::new(code.clone(), IrgenErrorMessage::InvalidDtype { dtype_error: e })
}

impl Irgen {
    /// Translates one declarator of a declaration of base type `base_dtype`: a type definition,
    /// or a declaration of the name with its initializer.
    #[verifier::spinoff_prover]
    fn add_init_declarator(
        &mut self,
        base_dtype: &Dtype,
        is_typedef: bool,
        init_decl: &InitDeclarator,
        code: &String,
    ) -> (r: Result<(), IrgenError>)
        requires
            old(self).wf(),
            declarator_step(old(self)@, base_dtype@, is_typedef, *init_decl, code@) is Some,
        ensures
            final(self).wf(),
            declarator_step(old(self)@, base_dtype@, is_typedef, *init_decl, code@) == Some(
                (final(self)@, result_view(r)),
            ),
    {
        let declarator = &init_decl.declarator;
        let name = name_of_declarator(declarator);
        let named = match base_dtype.clone().with_ast_declarator(declarator) {
            Ok(named) => named,
            Err(e) => {
                return Err(dtype_error(code, e));
            },
        };
        let dtype = match named.inner.resolve_typedefs(&self.typedefs, &self.structs) {
            Ok(d) => d,
            Err(e) => {
                return Err(dtype_error(code, e));
            },
        };
        if is_typedef {
            let ghost before = typedefs_view(self.typedefs);
            if !self.typedefs.contains_key(&name) {
                self.typedefs.insert(name.clone(), dtype.clone());
                assert(typedefs_view(self.typedefs) =~= before.insert(name@, dtype@));
            } else {
                assert(typedefs_view(self.typedefs) =~= before.insert(name@, before[name@]));
            }
            let prev = self.typedefs.get(&name).unwrap();
            if !prev.equals(&dtype) {
                let prev = prev.clone();
                return Err(
                    IrgenError::new(
                        code.clone(),
                        IrgenErrorMessage::ConflictingDtype { dtype, protorype_dtype: prev },
                    ),
                );
            }
            return Ok(());
        }
        if is_invalid_structure(&dtype, &self.structs) {
            return Err(misc_error(code, "incomplete struct type"));
        }
        let decl = match Declaration::try_from_dtype(dtype.clone()) {
            Ok(decl) => decl,
            Err(e) => {
                return Err(dtype_error(code, e));
            },
        };
        let decl = match &init_decl.initializer {
            Some(initializer) => {
                if !is_valid_initializer(initializer, &dtype, &self.structs) {
                    return Err(misc_error(code, "initializer is not valid"));
                }
                match decl {
                    Declaration::Variable { dtype: var_dtype, initializer: var_initializer } => {
                        if var_initializer.is_some() {
                            return Err(
                                IrgenError::new(code.clone(), IrgenErrorMessage::Redefinition { name }),
                            );
                        }
                        Declaration::Variable { dtype: var_dtype, initializer: Some(initializer.duplicate()) }
                    },
                    Declaration::Function { .. } => {
                        return Err(misc_error(code, "illegal initializer (only variables can be initialized)"));
                    },
                }
            },
            None => decl,
        };
        self.add_decl(&name, decl)
    }

    /// Translates a declaration of a struct, a type definition or variables and functions:
    /// the base type of its specifiers with type names resolved (a struct name is registered,
    /// the definitions of a struct with fields collected), then each declarator in turn, up to
    /// the first error. Errors are reported on `code`, the text of the declaration, but for a
    /// conflicting earlier declaration, reported on its name.
    #[verifier::spinoff_prover]
    pub fn add_declaration(&mut self, source: &AstDeclaration, code: &String) -> (r: Result<(), IrgenError>)
        requires
            old(self).wf(),
            add_declaration_spec(old(self)@, *source, code@) is Some,
        ensures
            final(self).wf(),
            add_declaration_spec(old(self)@, *source, code@) == Some((final(self)@, result_view(r))),
    {
        let (base_dtype, is_typedef) = match Dtype::try_from_ast_declaration_specifiers(&source.specifiers) {
            Ok(x) => x,
            Err(e) => {
                return Err(dtype_error(code, e));
            },
        };
        let base_dtype = match base_dtype.resolve_typedefs(&self.typedefs, &self.structs) {
            Ok(d) => d,
            Err(e) => {
                return Err(dtype_error(code, e));
            },
        };
        let mut is_struct = false;
        let mut has_fields = false;
        match &base_dtype {
            Dtype::Struct { name, fields, .. } => {
                is_struct = true;
                has_fields = fields.is_some();
                if let Some(name) = name {
                    if !self.structs.contains_key(name) {
                        let ghost before = structs_view(self.structs);
                        self.structs.insert(name.clone(), None);
                        assert(structs_view(self.structs) =~= before.insert(name@, None));
                    }
                }
            },
            _ => {},
        }
        let base_dtype = if is_struct && has_fields {
            match base_dtype.resolve_structs(&mut self.structs, &mut self.struct_tempid_counter) {
                Ok(d) => d,
                Err(e) => {
                    return Err(dtype_error(code, e));
                },
            }
        } else {
            base_dtype
        };
        let ghost st0 = self@;
        let declarators = &source.declarators;
        let mut i: usize = 0;
        assert(declarators@.take(0) =~= seq![]);
        while i < declarators.len()
            invariant
                i <= declarators@.len(),
                self.wf(),
                *declarators == source.declarators,
                add_declaration_spec(old(self)@, *source, code@) == declarators_spec(
                    st0,
                    base_dtype@,
                    is_typedef,
                    declarators@,
                    code@,
                ),
                declarators_spec(st0, base_dtype@, is_typedef, declarators@, code@) is Some,
                declarators_spec(st0, base_dtype@, is_typedef, declarators@.take(i as int), code@) == Some(
                    (self@, Ok::<(), ErrorModel>(())),
                ),
            decreases declarators@.len() - i,
        {
            proof {
                lemma_declarators_prefix(st0, base_dtype@, is_typedef, declarators@, code@, i as int);
                assert(declarators@.take(i + 1).drop_last() =~= declarators@.take(i as int));
                assert(declarators@.take(i + 1).last() == declarators@[i as int]);
            }
            let r = self.add_init_declarator(&base_dtype, is_typedef, &declarators[i], code);
            if r.is_err() {
                proof {
                    lemma_declarators_stop(st0, base_dtype@, is_typedef, declarators@, code@, i + 1);
                }
                return r;
            }
            i = i + 1;
        }
        assert(declarators@.take(i as int) =~= declarators@);
        Ok(())
    }
}


impl Irgen {
    /// Declares the function that a definition defines, from its header: its name and the
    /// names of its parameters, its type from the specifiers and the declarator with type names
    /// resolved; a header declared `typedef` is an error. The function is declared as
    /// `add_decl` does, and errors are reported on `code`, the text of the header, but for a
    /// conflicting earlier declaration, reported on its name.
    pub fn add_function_header(&mut self, source: &FunctionHeader, code: &String) -> (r: Result<(), IrgenError>)
        requires
            old(self).wf(),
            function_header_spec(old(self)@, *source, code@) is Some,
        ensures
            final(self).wf(),
            function_header_spec(old(self)@, *source, code@) == Some((final(self)@, result_view(r))),
    {
        let declarator = &source.declarator;
        let name = name_of_declarator(declarator);
        let _name_of_params = name_of_params_from_function_declarator(declarator);
        let (base_dtype, is_typedef) = match Dtype::try_from_ast_declaration_specifiers(&source.specifiers) {
            Ok(x) => x,
            Err(e) => {
                return Err(dtype_error(code, e));
            },
        };
        if is_typedef {
            return Err(misc_error(code, "function definition declared typedef"));
        }
        let named = match base_dtype.with_ast_declarator(declarator) {
            Ok(named) => named,
            Err(e) => {
                return Err(dtype_error(code, e));
            },
        };
        let dtype = match named.inner.resolve_typedefs(&self.typedefs, &self.structs) {
            Ok(d) => d,
            Err(e) => {
                return Err(dtype_error(code, e));
            },
        };
        let decl = match Declaration::try_from_dtype(dtype) {
            Ok(decl) => decl,
            Err(e) => {
                return Err(dtype_error(code, e));
            },
        };
        self.add_decl(&name, decl)
    }
}


/// A declaration added under a name is the one found under it after, and the other names keep
/// theirs, whether or not an earlier declaration conflicts.
pub proof fn lemma_add_decl_lookup(st: IrgenModel, name: Seq<char>, decl: DeclarationModel)
    ensures
        add_decl_spec(st, name, decl).0.decls.contains_key(name),
        add_decl_spec(st, name, decl).0.decls[name] == decl,
        forall|k: Seq<char>| k != name && st.decls.contains_key(k) ==> #[trigger] add_decl_spec(st, name, decl).0.decls[k]
            == st.decls[k],
{
}

/// The tables only grow: a name declared, defined as a type or as a struct before stays so.
pub open spec fn tables_grow(a: IrgenModel, b: IrgenModel) -> bool {
    &&& a.decls.dom().subset_of(b.decls.dom())
    &&& a.typedefs.dom().subset_of(b.typedefs.dom())
    &&& a.structs.dom().subset_of(b.structs.dom())
    &&& a.counter <= b.counter
}

proof fn lemma_declarator_step_grows(st: IrgenModel, base: SpecDtype, is_typedef: bool, d: InitDeclarator, code: Seq<char>)
    ensures
        declarator_step(st, base, is_typedef, d, code) matches Some((st2, _)) ==> tables_grow(st, st2),
{
}

proof fn lemma_declarators_grow(st: IrgenModel, base: SpecDtype, is_typedef: bool, ds: Seq<InitDeclarator>, code: Seq<char>)
    ensures
        declarators_spec(st, base, is_typedef, ds, code) matches Some((st2, _)) ==> tables_grow(st, st2),
    decreases ds.len(),
{
    if ds.len() > 0 {
        lemma_declarators_grow(st, base, is_typedef, ds.drop_last(), code);
        if let Some((st2, Ok(()))) = declarators_spec(st, base, is_typedef, ds.drop_last(), code) {
            lemma_declarator_step_grows(st2, base, is_typedef, ds.last(), code);
        }
    }
}

/// Translating a declaration only adds to the tables: every name declared, defined as a type
/// or as a struct before stays so, whether the translation succeeds or fails.
pub proof fn lemma_add_declaration_grows(st: IrgenModel, source: AstDeclaration, code: Seq<char>)
    ensures
        add_declaration_spec(st, source, code) matches Some((st2, _)) ==> tables_grow(st, st2),
{
    if let Some(Ok((base, is_typedef))) = declaration_specifiers_dtype_spec(source.specifiers@) {
        if let Some(Ok(b)) = spec_resolve_typedefs(base, st.typedefs) {
            match b {
                SpecDtype::Struct { name, fields, .. } => {
                    let st1 = match name {
                        Some(n) => if st.structs.contains_key(n) {
                            st
                        } else {
                            IrgenModel { structs: st.structs.insert(n, None), ..st }
                        },
                        None => st,
                    };
                    if let Some(n) = name {
                        assert(st.structs.dom().subset_of(st.structs.insert(n, None).dom()));
                    }
                    if fields is Some {
                        lemma_resolve_structs_by_name(b, st1.structs, st1.counter);
                        if let Some((Ok(b2), structs2, c2)) = spec_resolve_structs(b, st1.structs, st1.counter) {
                            let st2 = IrgenModel { structs: structs2, counter: c2, ..st1 };
                            lemma_declarators_grow(st2, b2, is_typedef, source.declarators@, code);
                        }
                    } else {
                        lemma_declarators_grow(st1, b, is_typedef, source.declarators@, code);
                    }
                },
                _ => {
                    lemma_declarators_grow(st, b, is_typedef, source.declarators@, code);
                },
            }
        }
    }
}

/// The names of parameters in order; `Some(None)` where one has no declarator (the names are
/// then given up), `None` where a declarator before it is abstract (the lookup panics).
pub open spec fn param_names_spec(ps: Seq<ParameterDeclaration>) -> Option<Option<Seq<Seq<char>>>>
    decreases ps.len(),
{
    if ps.len() == 0 {
        Some(Some(seq![]))
    } else {
        match ps[0].declarator {
            None => Some(None),
            Some(d) => match name_of_declarator_spec(d) {
                None => None,
                Some(n) => match param_names_spec(ps.drop_first()) {
                    Some(Some(rest)) => Some(Some(seq![n] + rest)),
                    other => other,
                },
            },
        }
    }
}

/// The parameter names of the first function part among derived declarators (none for an
/// old-style one, none where a parameter has no declarator); `Some(None)` where there is no
/// function part, `None` where the lookup panics.
pub open spec fn params_of_derived_spec(ds: Seq<DerivedDeclarator>) -> Option<Option<Seq<Seq<char>>>>
    decreases ds.len(),
{
    if ds.len() == 0 {
        Some(None)
    } else {
        match ds[0] {
            DerivedDeclarator::Function(fd) => match param_names_spec(fd.parameters@) {
                Some(Some(names)) => Some(Some(names)),
                Some(None) => Some(Some(seq![])),
                None => None,
            },
            DerivedDeclarator::KRFunction(_) => Some(Some(seq![])),
            _ => params_of_derived_spec(ds.drop_first()),
        }
    }
}

/// The parameter names of the function a declarator declares: those of the innermost
/// declarator with a function part; `Some(None)` where none has one, `None` where the lookup
/// panics (an abstract declarator).
pub open spec fn params_of_declarator_spec(d: Declarator) -> Option<Option<Seq<Seq<char>>>>
    decreases d,
{
    match d.kind {
        DeclaratorKind::Abstract => None,
        DeclaratorKind::Identifier(_) => params_of_derived_spec(d.derived@),
        DeclaratorKind::Declarator(inner) => match params_of_declarator_spec(*inner) {
            Some(None) => params_of_derived_spec(d.derived@),
            other => other,
        },
    }
}

/// The name a parameter declaration gives, if it has a declarator.
pub fn name_of_parameter_declaration(parameter_declaration: &ParameterDeclaration) -> (r: Option<String>)
    requires
        parameter_declaration.declarator matches Some(d) ==> name_of_declarator_spec(d) is Some,
    ensures
        match parameter_declaration.declarator {
            Some(d) => r matches Some(n) && Some(n@) == name_of_declarator_spec(d),
            None => r is None,
        },
{
    match &parameter_declaration.declarator {
        Some(declarator) => Some(name_of_declarator(declarator)),
        None => None,
    }
}

/// The names of a list of strings.
pub open spec fn names_view(v: Seq<String>) -> Seq<Seq<char>> {
    v.map_values(|s: String| s@)
}

/// The parameter names of the first function part among derived declarators: the names of its
/// parameters (none where one has no declarator), none for an old-style one; `None` where there
/// is no function part.
#[verifier::loop_isolation(false)]
pub fn name_of_params_from_derived_declarators(derived_decls: &Vec<DerivedDeclarator>) -> (r: Option<Vec<String>>)
    requires
        params_of_derived_spec(derived_decls@) is Some,
    ensures
        match params_of_derived_spec(derived_decls@).unwrap() {
            Some(names) => r matches Some(v) && names_view(v@) == names,
            None => r is None,
        },
{
    let ghost ds = derived_decls@;
    let mut i: usize = 0;
    assert(ds.subrange(0, ds.len() as int) =~= ds);
    while i < derived_decls.len()
        invariant
            i <= ds.len(),
            ds == derived_decls@,
            params_of_derived_spec(ds) == params_of_derived_spec(ds.subrange(i as int, ds.len() as int)),
            params_of_derived_spec(ds) is Some,
        decreases ds.len() - i,
    {
        let ghost rest = ds.subrange(i as int, ds.len() as int);
        assert(rest[0] == ds[i as int]);
        assert(rest.drop_first() =~= ds.subrange(i + 1, ds.len() as int));
        match &derived_decls[i] {
            DerivedDeclarator::Function(func_decl) => {
                let parameters = &func_decl.parameters;
                let ghost ps = parameters@;
                let mut names: Vec<String> = Vec::new();
                let mut j: usize = 0;
                assert(ps.subrange(0, ps.len() as int) =~= ps);
                assert(names_view(names@) =~= seq![]);
                assert(seq![] + ps =~= ps);
                while j < parameters.len()
                    invariant
                        j <= ps.len(),
                        ps == parameters@,
                        params_of_derived_spec(ds) == params_of_derived_spec(ds.subrange(i as int, ds.len() as int)),
                        ds.subrange(i as int, ds.len() as int)[0] == DerivedDeclarator::Function(*func_decl),
                        param_names_spec(ps) is Some,
                        param_names_spec(ps) == match param_names_spec(ps.subrange(j as int, ps.len() as int)) {
                            Some(Some(rest)) => Some(Some(names_view(names@) + rest)),
                            other => other,
                        },
                    decreases ps.len() - j,
                {
                    let ghost rest = ps.subrange(j as int, ps.len() as int);
                    assert(rest[0] == ps[j as int]);
                    assert(rest.drop_first() =~= ps.subrange(j + 1, ps.len() as int));
                    match name_of_parameter_declaration(&parameters[j]) {
                        Some(name) => {
                            let ghost before = names_view(names@);
                            names.push(name);
                            assert(names_view(names@) =~= before.push(name@));
                            proof {
                                let tail = ps.subrange(j + 1, ps.len() as int);
                                if let Some(Some(r2)) = param_names_spec(tail) {
                                    assert(before + (seq![name@] + r2) =~= before.push(name@) + r2);
                                }
                            }
                        },
                        None => {
                            let empty: Vec<String> = Vec::new();
                            assert(names_view(empty@) =~= seq![]);
                            assert(param_names_spec(rest) == Some(None::<Seq<Seq<char>>>));
                            assert(param_names_spec(func_decl.parameters@) == Some(None::<Seq<Seq<char>>>));
                            let ghost outer = ds.subrange(i as int, ds.len() as int);
                            assert(outer.len() > 0);
                            assert(params_of_derived_spec(outer) == Some(Some(Seq::<Seq<char>>::empty())));
                            return Some(empty);
                        },
                    }
                    j = j + 1;
                }
                assert(ps.subrange(j as int, ps.len() as int) =~= seq![]);
                assert(names_view(names@) + seq![] =~= names_view(names@));
                return Some(names);
            },
            DerivedDeclarator::KRFunction(_) => {
                let empty: Vec<String> = Vec::new();
                assert(names_view(empty@) =~= seq![]);
                return Some(empty);
            },
            _ => {},
        }
        i = i + 1;
    }
    None
}

/// The parameter names of the function a declarator declares: those of the innermost
/// declarator with a function part.
pub fn name_of_params_from_function_declarator(declarator: &Declarator) -> (r: Option<Vec<String>>)
    requires
        params_of_declarator_spec(*declarator) is Some,
    ensures
        match params_of_declarator_spec(*declarator).unwrap() {
            Some(names) => r matches Some(v) && names_view(v@) == names,
            None => r is None,
        },
    decreases declarator,
{
    match &declarator.kind {
        DeclaratorKind::Abstract => None,
        DeclaratorKind::Identifier(_) => name_of_params_from_derived_declarators(&declarator.derived),
        DeclaratorKind::Declarator(next_declarator) => {
            proof {
                assert(decreases_to!(*declarator => declarator.kind));
                assert(decreases_to!(declarator.kind => **next_declarator));
            }
            match name_of_params_from_function_declarator(next_declarator) {
                Some(names) => Some(names),
                None => name_of_params_from_derived_declarators(&declarator.derived),
            }
        },
    }
}


/// The type a declarator gives a name: the base type with the declarator applied, type names
/// resolved. `None` where either step fails or panics.
pub open spec fn declared_type(base: SpecDtype, d: Declarator, typedefs: Map<Seq<char>, SpecDtype>) -> Option<
    SpecDtype,
> {
    match with_declarator_spec(base, d) {
        Some(Ok((_, t))) => match spec_resolve_typedefs(t, typedefs) {
            Some(Ok(t2)) => Some(t2),
            _ => None,
        },
        _ => None,
    }
}

/// What a name stands for in the tables: the type it was defined as, for a type definition; the
/// type of its declaration otherwise.
pub open spec fn entry_type(st: IrgenModel, name: Seq<char>, is_typedef: bool) -> SpecDtype {
    if is_typedef {
        st.typedefs[name]
    } else {
        declaration_dtype(st.decls[name])
    }
}

/// The name a declarator declares is in the table of its kind.
pub open spec fn has_entry(st: IrgenModel, name: Seq<char>, is_typedef: bool) -> bool {
    if is_typedef {
        st.typedefs.contains_key(name)
    } else {
        st.decls.contains_key(name)
    }
}

/// A declarator that goes through names something, and afterwards that name stands for the
/// type the declarator gives it: as a type definition, or as a declared variable or function.
pub proof fn lemma_declarator_step_declares(
    st: IrgenModel,
    base: SpecDtype,
    is_typedef: bool,
    d: InitDeclarator,
    code: Seq<char>,
)
    requires
        declarator_step(st, base, is_typedef, d, code) matches Some((_, Ok(()))),
    ensures
        ({
            let st2 = declarator_step(st, base, is_typedef, d, code).unwrap().0;
            &&& name_of_declarator_spec(d.declarator) is Some
            &&& declared_type(base, d.declarator, st.typedefs) is Some
            &&& has_entry(st2, name_of_declarator_spec(d.declarator).unwrap(), is_typedef)
            &&& entry_type(st2, name_of_declarator_spec(d.declarator).unwrap(), is_typedef) == declared_type(
                base,
                d.declarator,
                st.typedefs,
            ).unwrap()
        }),
{
}

/// A declarator that goes through keeps what the other names of its kind stand for, keeps the
/// type definitions when it is no type definition, and keeps the types of declarations.
proof fn lemma_declarator_step_keeps(
    st: IrgenModel,
    base: SpecDtype,
    is_typedef: bool,
    d: InitDeclarator,
    code: Seq<char>,
    other: Seq<char>,
)
    requires
        declarator_step(st, base, is_typedef, d, code) matches Some((_, Ok(()))),
        has_entry(st, other, is_typedef),
    ensures
        ({
            let st2 = declarator_step(st, base, is_typedef, d, code).unwrap().0;
            &&& has_entry(st2, other, is_typedef)
            &&& entry_type(st2, other, is_typedef) == entry_type(st, other, is_typedef)
            &&& !is_typedef ==> st2.typedefs == st.typedefs
        }),
{
    let st2 = declarator_step(st, base, is_typedef, d, code).unwrap().0;
    if !is_typedef {
        let name = name_of_declarator_spec(d.declarator).unwrap();
        if other == name {
            assert(declaration_dtype(st2.decls[other]) == declaration_dtype(st.decls[other]));
        }
    }
}

/// Declarators that all go through, in a declaration that defines no type: each name they
/// declare stands afterwards for the type its declarator gives it.
pub proof fn lemma_declarators_declare(
    st: IrgenModel,
    base: SpecDtype,
    ds: Seq<InitDeclarator>,
    code: Seq<char>,
)
    requires
        declarators_spec(st, base, false, ds, code) matches Some((_, Ok(()))),
    ensures
        ({
            let st2 = declarators_spec(st, base, false, ds, code).unwrap().0;
            &&& st2.typedefs == st.typedefs
            &&& forall|i: int|
                0 <= i < ds.len() ==> {
                    &&& #[trigger] name_of_declarator_spec(ds[i].declarator) is Some
                    &&& declared_type(base, ds[i].declarator, st.typedefs) is Some
                    &&& st2.decls.contains_key(name_of_declarator_spec(ds[i].declarator).unwrap())
                    &&& declaration_dtype(st2.decls[name_of_declarator_spec(ds[i].declarator).unwrap()])
                        == declared_type(base, ds[i].declarator, st.typedefs).unwrap()
                }
        }),
    decreases ds.len(),
{
    if ds.len() > 0 {
        let prefix = ds.drop_last();
        lemma_declarators_declare(st, base, prefix, code);
        let st1 = declarators_spec(st, base, false, prefix, code).unwrap().0;
        let d = ds.last();
        lemma_declarator_step_declares(st1, base, false, d, code);
        let st2 = declarators_spec(st, base, false, ds, code).unwrap().0;
        assert forall|i: int| 0 <= i < ds.len() implies {
            &&& #[trigger] name_of_declarator_spec(ds[i].declarator) is Some
            &&& declared_type(base, ds[i].declarator, st.typedefs) is Some
            &&& st2.decls.contains_key(name_of_declarator_spec(ds[i].declarator).unwrap())
            &&& declaration_dtype(st2.decls[name_of_declarator_spec(ds[i].declarator).unwrap()])
                == declared_type(base, ds[i].declarator, st.typedefs).unwrap()
        } by {
            if i < ds.len() - 1 {
                assert(prefix[i] == ds[i]);
                lemma_declarator_step_keeps(
                    st1,
                    base,
                    false,
                    d,
                    code,
                    name_of_declarator_spec(ds[i].declarator).unwrap(),
                );
            }
        }
    }
}


/// A declaration of variables or functions that goes through declares each name that its
/// declarators name.
pub proof fn lemma_add_declaration_declares(st: IrgenModel, source: AstDeclaration, code: Seq<char>)
    requires
        add_declaration_spec(st, source, code) matches Some((_, Ok(()))),
        declaration_specifiers_dtype_spec(source.specifiers@) matches Some(Ok((_, false))),
    ensures
        forall|i: int|
            0 <= i < source.declarators@.len() ==> {
                &&& #[trigger] name_of_declarator_spec(source.declarators@[i].declarator) is Some
                &&& add_declaration_spec(st, source, code).unwrap().0.decls.contains_key(
                    name_of_declarator_spec(source.declarators@[i].declarator).unwrap(),
                )
            },
{
    let (base, is_typedef) = declaration_specifiers_dtype_spec(source.specifiers@).unwrap()->Ok_0;
    let b = spec_resolve_typedefs(base, st.typedefs).unwrap()->Ok_0;
    match b {
        SpecDtype::Struct { name, fields, .. } => {
            let st1 = match name {
                Some(n) => if st.structs.contains_key(n) {
                    st
                } else {
                    IrgenModel { structs: st.structs.insert(n, None), ..st }
                },
                None => st,
            };
            if fields is Some {
                let (res, structs2, c2) = spec_resolve_structs(b, st1.structs, st1.counter).unwrap();
                let st2 = IrgenModel { structs: structs2, counter: c2, ..st1 };
                lemma_declarators_declare(st2, res->Ok_0, source.declarators@, code);
            } else {
                lemma_declarators_declare(st1, b, source.declarators@, code);
            }
        },
        _ => {
            lemma_declarators_declare(st, b, source.declarators@, code);
        },
    }
}

} // verus!
