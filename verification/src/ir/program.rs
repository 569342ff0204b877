//! Whole programs of the intermediate representation: global declarations and function bodies.
use vstd::prelude::*;

use super::dtype::{dtypes_view, fields_view};
use super::{Block, BlockId, Dtype, DtypeError, FunctionSignature, HasDtype, Named, SpecDtype};
use crate::c::ast::{Initializer, InitializerModel};
use crate::utils::StringMap;

verus! {

/// The body of a function: its local allocations and its blocks.
#[derive(Debug)]
pub struct FunctionDefinition {
    /// Memory allocations for local variables, made when the function is entered.
    pub allocations: Vec<Named<Dtype>>,
    /// The blocks with their ids, in increasing order of id.
    pub blocks: Vec<(BlockId, Block)>,
    /// The block the function starts with.
    pub bid_init: BlockId,
}

/// A global declaration: a variable with its type and initializer, if any, or a function with
/// its signature and body, if defined.
#[derive(Debug)]
pub enum Declaration {
    Variable { dtype: Dtype, initializer: Option<Initializer> },
    Function { signature: FunctionSignature, definition: Option<FunctionDefinition> },
}

/// A program: its global declarations by name, and its struct types by name (without definition
/// where only declared).
#[derive(Debug)]
pub struct TranslationUnit {
    pub decls: StringMap<Declaration>,
    pub structs: StringMap<Option<Dtype>>,
}

/// The model of a declaration: types by their models.
pub enum DeclarationModel {
    Variable { dtype: SpecDtype, initializer: Option<InitializerModel> },
    Function { ret: SpecDtype, params: Seq<SpecDtype>, definition: Option<FunctionDefinition> },
}

/// The model of an optional initializer.
pub open spec fn initializer_view(i: Option<Initializer>) -> Option<InitializerModel> {
    match i {
        Some(i) => Some(i@),
        None => None,
    }
}

impl View for Declaration {
    type V = DeclarationModel;

    open spec fn view(&self) -> DeclarationModel {
        match self {
            Declaration::Variable { dtype, initializer } => DeclarationModel::Variable {
                dtype: dtype@,
                initializer: initializer_view(*initializer),
            },
            Declaration::Function { signature, definition } => DeclarationModel::Function {
                ret: signature.ret@,
                params: dtypes_view(signature.params@),
                definition: *definition,
            },
        }
    }
}

/// The type of a declared name: a variable's type, or the function type of a signature.
pub open spec fn declaration_dtype(d: DeclarationModel) -> SpecDtype {
    match d {
        DeclarationModel::Variable { dtype, .. } => dtype,
        DeclarationModel::Function { ret, params, .. } => SpecDtype::Function { ret: Box::new(ret), params },
    }
}

/// Two declarations of a name agree: both variables of the same type, or both functions of the
/// same type.
pub open spec fn declarations_compatible(a: DeclarationModel, b: DeclarationModel) -> bool {
    match (a, b) {
        (DeclarationModel::Variable { dtype: x, .. }, DeclarationModel::Variable { dtype: y, .. }) => x == y,
        (DeclarationModel::Function { ret: r1, params: p1, .. }, DeclarationModel::Function {
            ret: r2,
            params: p2,
            ..
        }) => r1 == r2 && p1 == p2,
        _ => false,
    }
}

/// The declaration a type calls for: a function for a function type, a variable without
/// initializer otherwise; `void` is an error. `None` for a type name (the conversion panics).
pub open spec fn declaration_from_dtype(d: SpecDtype) -> Option<Result<DeclarationModel, Seq<char>>> {
    match d {
        SpecDtype::Unit { .. } => Some(Err("A variable of type `void` cannot be declared"@)),
        SpecDtype::Function { ret, params } => Some(
            Ok(DeclarationModel::Function { ret: *ret, params, definition: None }),
        ),
        SpecDtype::Typedef { .. } => None,
        _ => Some(Ok(DeclarationModel::Variable { dtype: d, initializer: None })),
    }
}

/// The model of a table of declarations.
pub open spec fn decls_view(t: StringMap<Declaration>) -> Map<Seq<char>, DeclarationModel> {
    t.spec_map().map_values(|d: Declaration| d@)
}

impl Declaration {
    /// The declaration `dtype` calls for: a function declaration without definition for a
    /// function type, a variable declaration without initializer for the other types but
    /// `void`, which is an error.
    pub fn try_from_dtype(dtype: Dtype) -> (r: Result<Declaration, DtypeError>)
        requires
            !(dtype@ is Typedef),
        ensures
            match declaration_from_dtype(dtype@).unwrap() {
                Ok(d) => r matches Ok(x) && x@ == d,
                Err(m) => r matches Err(e) && e.message() == m,
            },
    {
        match &dtype {
            Dtype::Unit { .. } => Err(
                DtypeError::Misc { message: String::from_str("A variable of type `void` cannot be declared") },
            ),
            Dtype::Function { .. } => {
                let signature = FunctionSignature::new(dtype);
                Ok(Declaration::Function { signature, definition: None })
            },
            _ => Ok(Declaration::Variable { dtype, initializer: None }),
        }
    }

    /// The type and initializer of a variable declaration.
    pub fn get_variable(&self) -> (r: Option<(&Dtype, &Option<Initializer>)>)
        ensures
            r is Some == self is Variable,
            r matches Some((d, i)) ==> self matches Declaration::Variable { dtype, initializer } && *d == dtype
                && *i == initializer,
    {
        match self {
            Declaration::Variable { dtype, initializer } => Some((dtype, initializer)),
            _ => None,
        }
    }

    /// The signature and definition of a function declaration.
    pub fn get_function(&self) -> (r: Option<(&FunctionSignature, &Option<FunctionDefinition>)>)
        ensures
            r is Some == self is Function,
            r matches Some((s, d)) ==> self matches Declaration::Function { signature, definition }
                && *s == signature && *d == definition,
    {
        match self {
            Declaration::Function { signature, definition } => Some((signature, definition)),
            _ => None,
        }
    }

    /// The signature and body of a function declaration, to be changed in place.
    pub fn get_function_mut(&mut self) -> (r: Option<(&mut FunctionSignature, &mut Option<FunctionDefinition>)>)
        ensures
            r is Some == *old(self) is Function,
            r matches Some((s, d)) ==> *old(self) matches Declaration::Function { signature, definition }
                && *s == signature && *d == definition && *final(self) == (Declaration::Function {
                signature: *final(s),
                definition: *final(d),
            }),
            r is None ==> *final(self) == *old(self),
    {
        match self {
            Declaration::Function { signature, definition } => Some((signature, definition)),
            _ => None,
        }
    }

    /// Whether `other` may declare the same name again: both variables of the same type, or
    /// both functions of the same type.
    pub fn is_compatible(&self, other: &Declaration) -> (r: bool)
        ensures
            r == declarations_compatible(self@, other@),
    {
        match (self, other) {
            (Declaration::Variable { dtype, .. }, Declaration::Variable { dtype: other, .. }) => dtype.equals(
                other,
            ),
            (Declaration::Function { signature, .. }, Declaration::Function { signature: other_signature, .. }) => {
                let a = signature.dtype();
                let b = other_signature.dtype();
                let r = a.equals(&b);
                proof {
                    if self@->Function_params == other@->Function_params && self@->Function_ret
                        == other@->Function_ret {
                        assert(a@ == b@);
                    }
                }
                r
            },
            _ => false,
        }
    }
}

impl HasDtype for Declaration {
    /// The type of the declared name.
    fn dtype(&self) -> (r: Dtype)
        ensures
            r@ == declaration_dtype(self@),
    {
        match self {
            Declaration::Variable { dtype, .. } => dtype.duplicate(),
            Declaration::Function { signature, .. } => signature.dtype(),
        }
    }
}

} // verus!
