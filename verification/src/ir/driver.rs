//! Starting the interpreter: the default value of a type, the value of a global variable's
//! initializer, and the first state of a run of `main`.
use vstd::prelude::*;

use super::dtype::{clone_name, fields_view, structs_view};
use super::dtype_ast::{constant_int_of_expression, expression_int_spec};
use super::interp::{calculate_typecast, int_cast, typecast_ok, value_dtype, Value};
use crate::c::ast::{Initializer, InitializerModel};
use super::interp::{has_dtype, GlobalMap, InterpreterError, Pc};
use super::machine::{points_to_start, StackFrame, State};
use super::memory::{byte_size, range_fits, seq_splice, undef_bytes, value_bytes, value_bytes_ok, Memory};
use super::dtype::{dtype_text, size_align_ok, spec_size_align};
use super::program::declaration_dtype;
use super::{Declaration, Dtype, FunctionDefinition, HasDtype, Named, RegisterId, SpecDtype, TranslationUnit};
use crate::utils::StringMap;

verus! {

/// Computing the default value of `d` does not panic, with at most `fuel` levels of struct
/// nesting: no function type or type name is in it, and every struct in it is named and defined
/// with its fields in `structs`.
pub open spec fn default_ok(d: SpecDtype, structs: Map<Seq<char>, Option<SpecDtype>>, fuel: nat) -> bool
    decreases fuel, d,
{
    match d {
        SpecDtype::Unit { .. } => true,
        SpecDtype::Int { .. } => true,
        SpecDtype::Float { .. } => true,
        SpecDtype::Pointer { .. } => true,
        SpecDtype::Array { inner, .. } => default_ok(*inner, structs, fuel),
        SpecDtype::Struct { name, .. } => fuel > 0 && name is Some && structs.contains_key(name.unwrap())
            && match structs[name.unwrap()] {
            Some(SpecDtype::Struct { fields: Some(fs), .. }) => forall|i: int|
                0 <= i < fs.len() ==> default_ok(#[trigger] fs[i].1, structs, (fuel - 1) as nat),
            _ => false,
        },
        _ => false,
    }
}

/// `v` is the default value of `d`: unit; the integer 0; the float of bits 0; the null pointer
/// to the pointee type; an array of the default value of its element type; a struct of the
/// default values of the fields of its definition in `structs`, with their names.
pub open spec fn default_value(v: Value, d: SpecDtype, structs: Map<Seq<char>, Option<SpecDtype>>, fuel: nat) -> bool
    decreases fuel, d,
{
    match d {
        SpecDtype::Unit { .. } => v is Unit,
        SpecDtype::Int { width, is_signed, .. } => v == (Value::Int { value: 0, width, is_signed }),
        SpecDtype::Float { width, .. } => v == (Value::Float { bits: 0, width }),
        SpecDtype::Pointer { inner, .. } => v matches Value::Pointer { bid: None, offset: 0, dtype } && dtype@
            == *inner,
        SpecDtype::Array { inner, size } => v matches Value::Array { inner_dtype, values } && inner_dtype@ == *inner
            && values@.len() == size && forall|i: int|
            0 <= i < size ==> default_value(#[trigger] values@[i], *inner, structs, fuel),
        SpecDtype::Struct { name, .. } => fuel > 0 && name is Some && structs.contains_key(name.unwrap())
            && match structs[name.unwrap()] {
            Some(SpecDtype::Struct { fields: Some(fs), .. }) => v matches Value::Struct { name: vn, fields } && vn@
                == name.unwrap() && fields@.len() == fs.len() && forall|i: int|
                0 <= i < fs.len() ==> (#[trigger] fields@[i]).name_v() == fs[i].0 && default_value(
                    fields@[i].inner,
                    fs[i].1,
                    structs,
                    (fuel - 1) as nat,
                ),
            _ => false,
        },
        _ => false,
    }
}

/// A nesting depth at which computing the default value of `d` does not panic, where there is
/// one.
pub open spec fn default_fuel(d: SpecDtype, structs: Map<Seq<char>, Option<SpecDtype>>) -> nat {
    choose|fuel: nat| default_ok(d, structs, fuel)
}

impl Value {
    /// The default value of `dtype`, with at most `fuel` levels of struct nesting.
    #[verifier::loop_isolation(false)]
    fn default_within(dtype: &Dtype, structs: &StringMap<Option<Dtype>>, Ghost(fuel): Ghost<nat>) -> (r: Value)
        requires
            structs.wf(),
            default_ok(dtype@, structs_view(*structs), fuel),
        ensures
            default_value(r, dtype@, structs_view(*structs), fuel),
        decreases fuel, dtype,
    {
        let ghost sv = structs_view(*structs);
        match dtype {
            Dtype::Unit { .. } => Value::Unit,
            Dtype::Int { width, is_signed, .. } => Value::Int { value: 0, width: *width, is_signed: *is_signed },
            Dtype::Float { width, .. } => Value::Float { bits: 0, width: *width },
            Dtype::Pointer { inner, .. } => Value::Pointer { bid: None, offset: 0, dtype: inner.duplicate() },
            Dtype::Array { inner, size } => {
                let mut values: Vec<Value> = Vec::new();
                let mut i: usize = 0;
                while i < *size
                    invariant
                        i <= *size,
                        values@.len() == i,
                        forall|j: int| 0 <= j < i ==> default_value(#[trigger] values@[j], inner@, sv, fuel),
                    decreases *size - i,
                {
                    let v = Value::default_within(inner, structs, Ghost(fuel));
                    values.push(v);
                    i = i + 1;
                }
                Value::Array { inner_dtype: inner.duplicate(), values }
            },
            Dtype::Struct { name, .. } => {
                let name = name.as_ref().unwrap();
                let struct_type = structs.get(name).unwrap().as_ref().unwrap();
                assert(sv[name@] == Some(struct_type@));
                let fields = struct_type.get_struct_fields().unwrap().as_ref().unwrap();
                let ghost fs = fields_view(fields@);
                assert(struct_type@ matches SpecDtype::Struct { fields: Some(f2), .. } && f2 == fs);
                assert(forall|j: int| 0 <= j < fs.len() ==> default_ok(#[trigger] fs[j].1, sv, (fuel - 1) as nat));
                let mut out: Vec<Named<Value>> = Vec::new();
                let mut i: usize = 0;
                while i < fields.len()
                    invariant
                        i <= fields@.len(),
                        fs == fields_view(fields@),
                        forall|j: int| 0 <= j < fs.len() ==> default_ok(#[trigger] fs[j].1, sv, (fuel - 1) as nat),
                        out@.len() == i,
                        forall|j: int|
                            0 <= j < i ==> (#[trigger] out@[j]).name_v() == fs[j].0 && default_value(
                                out@[j].inner,
                                fs[j].1,
                                sv,
                                (fuel - 1) as nat,
                            ),
                    decreases fields@.len() - i,
                {
                    proof {
                        assert(fs[i as int] == (fields@[i as int].name_v(), fields@[i as int].inner@));
                        assert(default_ok(fs[i as int].1, sv, (fuel - 1) as nat));
                        assert(fields@[i as int].inner@ == fs[i as int].1);
                    }
                    let v = Value::default_within(&fields[i].inner, structs, Ghost((fuel - 1) as nat));
                    let n = clone_name(&fields[i].name);
                    out.push(Named { name: n, inner: v });
                    i = i + 1;
                }
                Value::Struct { name: name.clone(), fields: out }
            },
            _ => Value::Unit,
        }
    }

    /// The default value of `dtype` (see `default_value`), computed at a nesting depth at which
    /// it does not panic.
    pub fn default_from_dtype(dtype: &Dtype, structs: &StringMap<Option<Dtype>>) -> (r: Result<Value, ()>)
        requires
            structs.wf(),
            exists|fuel: nat| default_ok(dtype@, structs_view(*structs), fuel),
        ensures
            r matches Ok(v) && default_value(
                v,
                dtype@,
                structs_view(*structs),
                default_fuel(dtype@, structs_view(*structs)),
            ),
    {
        let ghost fuel = default_fuel(dtype@, structs_view(*structs));
        Ok(Value::default_within(dtype, structs, Ghost(fuel)))
    }
}


/// The value of an integer constant `value:width:signed` cast to `d` (see `calculate_typecast`):
/// kept where it has type `d`, brought to the width and signedness of an integer type, the null
/// pointer for a pointer type.
pub open spec fn cast_int_value(v: Value, value: u128, width: usize, is_signed: bool, d: SpecDtype) -> bool {
    let x = Value::Int { value, width, is_signed };
    if value_dtype(x) == d {
        v == x
    } else {
        match d {
            SpecDtype::Int { width: tw, is_signed: ts, .. } => v == (Value::Int {
                value: int_cast(value, width, tw, ts),
                width: tw,
                is_signed: ts,
            }),
            SpecDtype::Pointer { inner, .. } => v matches Value::Pointer { bid: None, offset: 0, dtype } && dtype@
                == *inner,
            _ => false,
        }
    }
}

/// An initializer is a scalar one for a scalar type: an integer, float or pointer type.
pub open spec fn is_scalar_type(d: SpecDtype) -> bool {
    d is Int || d is Float || d is Pointer
}

/// Translating `init` as a value of type `d` fails, with at most `fuel` levels of struct
/// nesting: an expression for a scalar type is no constant, or the initializer does not fit
/// the type (an expression for an aggregate, a list for a scalar), or an item of a list fails.
pub open spec fn init_errs(init: InitializerModel, d: SpecDtype, structs: Map<Seq<char>, Option<SpecDtype>>, fuel: nat) -> bool
    decreases fuel, init,
{
    match init {
        InitializerModel::Expression(e) => if is_scalar_type(d) {
            expression_int_spec(e) == Some(Err::<Option<(u128, usize, bool)>, ()>(()))
        } else {
            true
        },
        InitializerModel::List(items) => match d {
            SpecDtype::Array { inner, size } => exists|i: int|
                0 <= i < size && i < items.len() && init_errs(#[trigger] items[i], *inner, structs, fuel),
            SpecDtype::Struct { name, .. } => fuel > 0 && name is Some && structs.contains_key(name.unwrap())
                && match structs[name.unwrap()] {
                Some(SpecDtype::Struct { fields: Some(fs), .. }) => exists|i: int|
                    0 <= i < fs.len() && i < items.len() && init_errs(#[trigger] items[i], fs[i].1, structs, (fuel - 1) as nat),
                _ => false,
            },
            _ => true,
        },
    }
}

/// No item before position `n` fails as a value of type `d`.
pub open spec fn items_clean(items: Seq<InitializerModel>, n: int, d: SpecDtype, structs: Map<Seq<char>, Option<SpecDtype>>, fuel: nat) -> bool {
    forall|j: int| 0 <= j < n && j < items.len() ==> !init_errs(#[trigger] items[j], d, structs, fuel)
}

/// No item before position `n` fails as a value of the type of its field in `fs`.
pub open spec fn fields_clean(
    items: Seq<InitializerModel>,
    n: int,
    fs: Seq<(Option<Seq<char>>, SpecDtype)>,
    structs: Map<Seq<char>, Option<SpecDtype>>,
    fuel: nat,
) -> bool {
    forall|j: int| 0 <= j < n && j < items.len() ==> !init_errs(#[trigger] items[j], fs[j].1, structs, fuel)
}

/// Translating `init` as a value of type `d` does not panic, with at most `fuel` levels of
/// struct nesting: a constant expression for a scalar type is an integer (floats are left out)
/// that can be cast to the type; each item of a list that is reached (no earlier item failed)
/// translates without panic, and the default value of each element or field without an item
/// can be computed; a struct is named and defined with its fields.
pub open spec fn init_ok(init: InitializerModel, d: SpecDtype, structs: Map<Seq<char>, Option<SpecDtype>>, fuel: nat) -> bool
    decreases fuel, init,
{
    match init {
        InitializerModel::Expression(e) => is_scalar_type(d) ==> match expression_int_spec(e) {
            Some(Ok(Some((value, width, is_signed)))) => typecast_ok(Value::Int { value, width, is_signed }, d),
            Some(Ok(None)) => false,
            Some(Err(())) => true,
            None => false,
        },
        InitializerModel::List(items) => match d {
            SpecDtype::Array { inner, size } => forall|i: int|
                #![trigger items_clean(items, i, *inner, structs, fuel)]
                0 <= i < size && items_clean(items, i, *inner, structs, fuel) ==> if i < items.len() {
                    init_ok(items[i], *inner, structs, fuel)
                } else {
                    default_ok(*inner, structs, fuel)
                },
            SpecDtype::Struct { name, .. } => fuel > 0 && name is Some && structs.contains_key(name.unwrap())
                && match structs[name.unwrap()] {
                Some(SpecDtype::Struct { fields: Some(fs), .. }) => forall|i: int|
                    #![trigger fields_clean(items, i, fs, structs, (fuel - 1) as nat)]
                    0 <= i < fs.len() && fields_clean(items, i, fs, structs, (fuel - 1) as nat) ==> if i
                        < items.len() {
                        init_ok(items[i], fs[i].1, structs, (fuel - 1) as nat)
                    } else {
                        default_ok(fs[i].1, structs, (fuel - 1) as nat)
                    },
                _ => false,
            },
            _ => true,
        },
    }
}

/// `v` is the value of `init` as type `d`: a constant cast to the type; an array of the items'
/// values, and of default values past the last item (items past the size are left out); a
/// struct of the items' values for the first fields and default values for the others.
pub open spec fn init_value(v: Value, init: InitializerModel, d: SpecDtype, structs: Map<Seq<char>, Option<SpecDtype>>, fuel: nat) -> bool
    decreases fuel, init,
{
    match init {
        InitializerModel::Expression(e) => match expression_int_spec(e) {
            Some(Ok(Some((value, width, is_signed)))) => cast_int_value(v, value, width, is_signed, d),
            _ => false,
        },
        InitializerModel::List(items) => match d {
            SpecDtype::Array { inner, size } => v matches Value::Array { inner_dtype, values } && inner_dtype@
                == *inner && values@.len() == size && forall|i: int|
                0 <= i < size ==> if i < items.len() {
                    init_value(#[trigger] values@[i], items[i], *inner, structs, fuel)
                } else {
                    default_value(values@[i], *inner, structs, fuel)
                },
            SpecDtype::Struct { name, .. } => fuel > 0 && name is Some && structs.contains_key(name.unwrap())
                && match structs[name.unwrap()] {
                Some(SpecDtype::Struct { fields: Some(fs), .. }) => v matches Value::Struct { name: vn, fields } && vn@
                    == name.unwrap() && fields@.len() == fs.len() && forall|i: int|
                    0 <= i < fs.len() ==> (#[trigger] fields@[i]).name_v() == fs[i].0 && if i < items.len() {
                        init_value(fields@[i].inner, items[i], fs[i].1, structs, (fuel - 1) as nat)
                    } else {
                        default_value(fields@[i].inner, fs[i].1, structs, (fuel - 1) as nat)
                    },
                _ => false,
            },
            _ => false,
        },
    }
}

/// A nesting depth at which translating `init` as type `d` does not panic, where there is one.
pub open spec fn init_fuel(init: InitializerModel, d: SpecDtype, structs: Map<Seq<char>, Option<SpecDtype>>) -> nat {
    choose|fuel: nat| init_ok(init, d, structs, fuel)
}

impl Value {
    /// The value of `init` as type `dtype`, with at most `fuel` levels of struct nesting.
    #[verifier::loop_isolation(false)]
    fn init_within(init: &Initializer, dtype: &Dtype, structs: &StringMap<Option<Dtype>>, Ghost(fuel): Ghost<nat>) -> (r: Result<Value, ()>)
        requires
            structs.wf(),
            init_ok(init.spec_view(), dtype@, structs_view(*structs), fuel),
        ensures
            r is Err == init_errs(init.spec_view(), dtype@, structs_view(*structs), fuel),
            r matches Ok(v) ==> init_value(v, init.spec_view(), dtype@, structs_view(*structs), fuel),
        decreases fuel, init,
    {
        let ghost sv = structs_view(*structs);
        match init {
            Initializer::Expression(e) => {
                let scalar = match dtype {
                    Dtype::Int { .. } => true,
                    Dtype::Float { .. } => true,
                    Dtype::Pointer { .. } => true,
                    _ => false,
                };
                proof {
                    assert(scalar == is_scalar_type(dtype@));
                    assert(init.spec_view() == InitializerModel::Expression(*e));
                }
                if !scalar {
                    return Err(());
                }
                let c = match constant_int_of_expression(e) {
                    Ok(c) => c,
                    Err(x) => {
                        proof {
                            assert(x == ());
                            assert(expression_int_spec(*e) == Some(Err::<Option<(u128, usize, bool)>, ()>(())));
                            assert(init_errs(init.spec_view(), dtype@, sv, fuel));
                        }
                        return Err(());
                    },
                };
                let (value, width, is_signed) = c.unwrap();
                calculate_typecast(Value::Int { value, width, is_signed }, dtype.duplicate())
            },
            Initializer::List(items) => {
                let ghost ms = init.spec_view()->List_0;
                assert(ms.len() == items@.len());
                assert(forall|j: int| 0 <= j < items@.len() ==> #[trigger] ms[j] == items@[j].spec_view());
                match dtype {
                    Dtype::Array { inner, size } => {
                        let mut values: Vec<Value> = Vec::new();
                        let mut i: usize = 0;
                        while i < *size
                            invariant
                                i <= *size,
                                values@.len() == i,
                                items_clean(ms, i as int, inner@, sv, fuel),
                                forall|j: int|
                                    0 <= j < i ==> if j < ms.len() {
                                        init_value(#[trigger] values@[j], ms[j], inner@, sv, fuel)
                                    } else {
                                        default_value(values@[j], inner@, sv, fuel)
                                    },
                            decreases *size - i,
                        {
                            proof {
                                assert(items_clean(ms, i as int, inner@, sv, fuel));
                            }
                            if i < items.len() {
                                proof {
                                    assert(decreases_to!(*init => *items));
                                    assert(decreases_to!(*items => items@));
                                    assert(decreases_to!(items@ => items@[i as int]));
                                    assert(init_ok(ms[i as int], inner@, sv, fuel));
                                }
                                match Value::init_within(&items[i], inner, structs, Ghost(fuel)) {
                                    Ok(v) => {
                                        values.push(v);
                                    },
                                    Err(e) => {
                                        proof {
                                            assert(init_errs(ms[i as int], inner@, sv, fuel));
                                        }
                                        return Err(e);
                                    },
                                }
                            } else {
                                let v = Value::default_within(inner, structs, Ghost(fuel));
                                values.push(v);
                            }
                            i = i + 1;
                        }
                        proof {
                            if init_errs(init.spec_view(), dtype@, sv, fuel) {
                                let k = choose|k: int|
                                    0 <= k < *size && k < ms.len() && init_errs(#[trigger] ms[k], inner@, sv, fuel);
                                assert(!init_errs(ms[k], inner@, sv, fuel));
                            }
                        }
                        Ok(Value::Array { inner_dtype: inner.duplicate(), values })
                    },
                    Dtype::Struct { name, .. } => {
                        let name = name.as_ref().unwrap();
                        let struct_type = structs.get(name).unwrap().as_ref().unwrap();
                        assert(sv[name@] == Some(struct_type@));
                        let fields = struct_type.get_struct_fields().unwrap().as_ref().unwrap();
                        let ghost fs = fields_view(fields@);
                        assert(struct_type@ matches SpecDtype::Struct { fields: Some(f2), .. } && f2 == fs);
                        let mut out: Vec<Named<Value>> = Vec::new();
                        let mut i: usize = 0;
                        while i < fields.len()
                            invariant
                                i <= fields@.len(),
                                fs == fields_view(fields@),
                                out@.len() == i,
                                forall|j: int| 0 <= j < i && j < ms.len() ==> !init_errs(#[trigger] ms[j], fs[j].1, sv, (fuel - 1) as nat),
                                forall|j: int|
                                    0 <= j < i ==> (#[trigger] out@[j]).name_v() == fs[j].0 && if j < ms.len() {
                                        init_value(out@[j].inner, ms[j], fs[j].1, sv, (fuel - 1) as nat)
                                    } else {
                                        default_value(out@[j].inner, fs[j].1, sv, (fuel - 1) as nat)
                                    },
                            decreases fields@.len() - i,
                        {
                            proof {
                                assert(fs[i as int] == (fields@[i as int].name_v(), fields@[i as int].inner@));
                                assert(fields@[i as int].inner@ == fs[i as int].1);
                                assert(fields_clean(ms, i as int, fs, sv, (fuel - 1) as nat));
                            }
                            let v = if i < items.len() {
                                proof {
                                    assert(init_ok(ms[i as int], fs[i as int].1, sv, (fuel - 1) as nat));
                                }
                                match Value::init_within(&items[i], &fields[i].inner, structs, Ghost((fuel - 1) as nat)) {
                                    Ok(v) => v,
                                    Err(e) => {
                                        proof {
                                            assert(init_errs(ms[i as int], fs[i as int].1, sv, (fuel - 1) as nat));
                                        }
                                        return Err(e);
                                    },
                                }
                            } else {
                                proof {
                                    assert(default_ok(fs[i as int].1, sv, (fuel - 1) as nat));
                                }
                                Value::default_within(&fields[i].inner, structs, Ghost((fuel - 1) as nat))
                            };
                            let n = clone_name(&fields[i].name);
                            out.push(Named { name: n, inner: v });
                            i = i + 1;
                        }
                        proof {
                            if init_errs(init.spec_view(), dtype@, sv, fuel) {
                                let k = choose|k: int|
                                    0 <= k < fs.len() && k < ms.len() && init_errs(
                                        #[trigger] ms[k],
                                        fs[k].1,
                                        sv,
                                        (fuel - 1) as nat,
                                    );
                                assert(!init_errs(ms[k], fs[k].1, sv, (fuel - 1) as nat));
                            }
                        }
                        Ok(Value::Struct { name: name.clone(), fields: out })
                    },
                    _ => Err(()),
                }
            },
        }
    }

    /// The value of a global variable's initializer `init` as type `dtype` (see `init_value`),
    /// or an error where it does not fit the type or is no constant (see `init_errs`).
    pub fn try_from_initializer(init: &Initializer, dtype: &Dtype, structs: &StringMap<Option<Dtype>>) -> (r: Result<Value, ()>)
        requires
            structs.wf(),
            exists|fuel: nat| init_ok(init.spec_view(), dtype@, structs_view(*structs), fuel),
        ensures
            ({
                let fuel = init_fuel(init.spec_view(), dtype@, structs_view(*structs));
                &&& r is Err == init_errs(init.spec_view(), dtype@, structs_view(*structs), fuel)
                &&& r matches Ok(v) ==> init_value(v, init.spec_view(), dtype@, structs_view(*structs), fuel)
            }),
    {
        let ghost fuel = init_fuel(init.spec_view(), dtype@, structs_view(*structs));
        Value::init_within(init, dtype, structs, Ghost(fuel))
    }
}


/// The first value of a global declaration: that of a variable's initializer, or the default
/// value of its type. A function has none.
pub open spec fn global_value(d: Declaration, structs: Map<Seq<char>, Option<SpecDtype>>, v: Value) -> bool {
    match d {
        Declaration::Variable { dtype, initializer: Some(init) } => !init_errs(
            init.spec_view(),
            dtype@,
            structs,
            init_fuel(init.spec_view(), dtype@, structs),
        ) && init_value(v, init.spec_view(), dtype@, structs, init_fuel(init.spec_view(), dtype@, structs)),
        Declaration::Variable { dtype, initializer: None } => default_value(
            v,
            dtype@,
            structs,
            default_fuel(dtype@, structs),
        ),
        Declaration::Function { .. } => false,
    }
}

/// The initializer of a global variable does not fit its type, or is no constant.
pub open spec fn global_init_errs(d: Declaration, structs: Map<Seq<char>, Option<SpecDtype>>) -> bool {
    match d {
        Declaration::Variable { dtype, initializer: Some(init) } => init_errs(
            init.spec_view(),
            dtype@,
            structs,
            init_fuel(init.spec_view(), dtype@, structs),
        ),
        _ => false,
    }
}

/// A value can be written to memory without panic (see `store_ready`).
pub open spec fn storable(v: Value, structs: Map<Seq<char>, Option<SpecDtype>>) -> bool {
    &&& value_bytes_ok(v, structs)
    &&& has_dtype(v)
    &&& size_align_ok(value_dtype(v), structs)
    &&& spec_size_align(value_dtype(v), structs) is Ok
    &&& range_fits(0, byte_size(value_dtype(v), structs))
}

/// Setting up a global declaration does not panic: the size of its type can be computed, and a
/// variable's first value can be computed and written.
pub open spec fn global_ready(d: Declaration, structs: Map<Seq<char>, Option<SpecDtype>>) -> bool {
    &&& size_align_ok(declaration_dtype(d@), structs)
    &&& spec_size_align(declaration_dtype(d@), structs) is Ok
    &&& match d {
        Declaration::Variable { dtype, initializer: Some(init) } => exists|fuel: nat|
            init_ok(init.spec_view(), dtype@, structs, fuel),
        Declaration::Variable { dtype, initializer: None } => exists|fuel: nat| default_ok(dtype@, structs, fuel),
        Declaration::Function { .. } => true,
    }
    &&& forall|v: Value| global_value(d, structs, v) ==> storable(v, structs)
}

/// The block of a global declaration in the first state: undefined bytes of the size of its
/// type, with a variable's first value written at its start.
pub open spec fn global_block(b: Option<Seq<super::interp::Byte>>, d: Declaration, structs: Map<Seq<char>, Option<SpecDtype>>) -> bool {
    let size = byte_size(declaration_dtype(d@), structs);
    match d {
        Declaration::Function { .. } => b == Some(undef_bytes(size)),
        Declaration::Variable { .. } => exists|v: Value|
            global_value(d, structs, v) && b == Some(
                seq_splice(undef_bytes(size), 0, byte_size(value_dtype(v), structs) as int, value_bytes(v, structs)),
            ),
    }
}

/// The message of an initializer that cannot be translated to a value of type `d`.
pub open spec fn init_failure(d: SpecDtype) -> Seq<char> {
    "fail to translate `Initializer` and `"@ + dtype_text(d) + "` to `Value`"@
}

/// The declaration of `main`, when it is a function.
pub open spec fn main_function(ir: TranslationUnit) -> Option<Option<FunctionDefinition>> {
    if ir.decls.spec_map().contains_key("main"@) {
        match ir.decls.spec_map()["main"@] {
            Declaration::Function { definition, .. } => Some(definition),
            _ => None,
        }
    } else {
        None
    }
}

/// Starting a run does not panic: each global declaration can be set up, and the size of each
/// local allocation of `main` can be computed.
pub open spec fn start_ready(ir: TranslationUnit) -> bool {
    let structs = structs_view(ir.structs);
    &&& ir.decls.wf()
    &&& ir.structs.wf()
    &&& forall|k: int| 0 <= k < ir.decls.spec_entries().len() ==> global_ready(#[trigger] ir.decls.spec_entries()[k].1, structs)
    &&& main_function(ir) matches Some(Some(def)) ==> forall|i: int|
        0 <= i < def.allocations@.len() ==> size_align_ok(#[trigger] def.allocations@[i].inner@, structs)
            && spec_size_align(def.allocations@[i].inner@, structs) is Ok
    &&& main_function(ir) matches Some(Some(def)) ==> ir.decls.spec_entries().len() + def.allocations@.len()
        <= usize::MAX
}

/// The global declarations up to `n` were set up in `gm` and `mem`: each has the block of its position,
/// known under its name, with its first contents.
pub open spec fn globals_set(
    gm: GlobalMap,
    mem: Seq<Option<Seq<super::interp::Byte>>>,
    ir: TranslationUnit,
    n: int,
) -> bool {
    let es = ir.decls.spec_entries();
    let structs = structs_view(ir.structs);
    &&& mem.len() >= n
    &&& forall|g: Seq<char>| #[trigger] gm.vars().contains_key(g) <==> exists|j: int| 0 <= j < n && es[j].0@ == g
    &&& forall|j: int|
        0 <= j < n ==> gm.vars()[(#[trigger] es[j]).0@] == j && global_block(mem[j], es[j].1, structs)
    &&& forall|b: usize| #[trigger] gm.bids().contains_key(b) <==> b < n
}


/// Why starting a run of `ir` failed: no `main` function, or no definition of it, or, in the
/// first global declaration that failed, an initializer that cannot be translated or a value
/// that does not fit its block. The error names `main` at its first position.
pub open spec fn start_error(ir: TranslationUnit, e: InterpreterError) -> bool {
    let es = ir.decls.spec_entries();
    let structs = structs_view(ir.structs);
    match e {
        InterpreterError::NoMainFunction => main_function(ir) is None,
        InterpreterError::NoFunctionDefinition { func_name } => main_function(ir) == Some(None::<FunctionDefinition>)
            && func_name@ == "main"@,
        InterpreterError::Misc { func_name, pc, msg } => {
            &&& main_function(ir) matches Some(Some(def))
            &&& func_name@ == "main"@
            &&& pc == (Pc { bid: main_function(ir).unwrap().unwrap().bid_init, iid: 0 })
            &&& exists|k: int|
                0 <= k < es.len() && (forall|j: int| 0 <= j < k ==> !global_init_errs(#[trigger] es[j].1, structs))
                    && #[trigger] global_failure(es[k].1, k, structs, msg@)
        },
        _ => false,
    }
}

/// The global declaration at position `k` fails with message `msg`: its initializer cannot be
/// translated, or its first value is larger than its block.
pub open spec fn global_failure(d: Declaration, k: int, structs: Map<Seq<char>, Option<SpecDtype>>, msg: Seq<char>) -> bool {
    if global_init_errs(d, structs) {
        msg == init_failure(declaration_dtype(d@))
    } else {
        msg == super::machine::store_failure(k as usize, 0) && exists|v: Value|
            global_value(d, structs, v) && byte_size(value_dtype(v), structs) > byte_size(declaration_dtype(d@), structs)
    }
}

/// `s` is the first state of a run of `main` of `ir` with arguments `args` (see `State::new`).
pub open spec fn start_state(ir: TranslationUnit, args: Seq<Value>, s: State) -> bool {
    &&& main_function(ir) matches Some(Some(def))
    &&& {
        let def = main_function(ir).unwrap().unwrap();
        let n = ir.decls.spec_entries().len();
        let allocs = def.allocations@;
        &&& s.wf()
        &&& *s.ir == ir
        &&& s.stack@.len() == 0
        &&& s.stack_frame.func_name@ == "main"@
        &&& *s.stack_frame.func_def == def
        &&& s.stack_frame.pc == (Pc { bid: def.bid_init, iid: 0 })
        &&& globals_set(s.global_map, s.memory@, ir, n as int)
        &&& s.memory@.len() == n + allocs.len()
        &&& forall|i: int|
            0 <= i < allocs.len() ==> s.memory@[n + i] == Some(
                undef_bytes(byte_size(#[trigger] allocs[i].inner@, structs_view(ir.structs))),
            )
        &&& forall|k: RegisterId|
            #[trigger] s.regs().contains_key(k) <==> ((k matches RegisterId::Arg { bid, aid } && bid == def.bid_init
                && aid < args.len()) || (k matches RegisterId::Local { aid } && aid < allocs.len()))
        &&& forall|i: int|
            0 <= i < args.len() ==> #[trigger] s.regs()[RegisterId::Arg { bid: def.bid_init, aid: i as usize }]
                == args[i]
        &&& forall|i: int|
            0 <= i < allocs.len() ==> points_to_start(
                #[trigger] s.regs()[RegisterId::Local { aid: i as usize }],
                n + i,
                allocs[i].inner@,
            )
    }
}

impl<'i> State<'i> {
    /// The first state of a run of `main` of `ir` with arguments `args`: each global
    /// declaration, in the order of the table, gets a block of the size of its type, known under
    /// its name, and a variable gets its first value written there (see `global_value`); then
    /// `main`'s frame starts at its initial block, with `args` in the registers of the block's
    /// arguments, and a fresh block for each local allocation. A missing `main` is an error, as
    /// is a `main` without definition, a variable whose initializer cannot be translated (the
    /// first one), or one whose value does not fit its block.
    pub fn new(ir: &'i TranslationUnit, args: Vec<Value>) -> (r: Result<State<'i>, InterpreterError>)
        requires
            start_ready(*ir),
        ensures
            main_function(*ir) is None <==> r matches Err(InterpreterError::NoMainFunction),
            (main_function(*ir) == Some(None::<FunctionDefinition>)) <==> (r matches Err(
                InterpreterError::NoFunctionDefinition { func_name },
            ) && func_name@ == "main"@),
            r matches Err(e) ==> start_error(*ir, e),
            r is Ok ==> forall|k: int|
                0 <= k < ir.decls.spec_entries().len() ==> !global_init_errs(
                    #[trigger] ir.decls.spec_entries()[k].1,
                    structs_view(ir.structs),
                ),
            r matches Ok(s) ==> start_state(*ir, args@, s),
    {
        proof {
            reveal_strlit("main");
        }
        let main_name = String::from_str("main");
        let func = match ir.decls.get(&main_name) {
            Some(f) => f,
            None => {
                return Err(InterpreterError::NoMainFunction);
            },
        };
        let definition = match func.get_function() {
            Some((_, d)) => d,
            None => {
                return Err(InterpreterError::NoMainFunction);
            },
        };
        let def: &'i FunctionDefinition = match definition {
            Some(d) => d,
            None => {
                return Err(InterpreterError::NoFunctionDefinition { func_name: main_name });
            },
        };
        let ghost sv = structs_view(ir.structs);
        let ghost es = ir.decls.spec_entries();
        let mut state = State {
            global_map: GlobalMap::new(),
            stack_frame: StackFrame::new(def.bid_init, main_name, def),
            stack: Vec::new(),
            memory: Memory::new(),
            ir,
        };
        let n = ir.decls.len();
        let mut k: usize = 0;
        while k < n
            invariant
                start_ready(*ir),
                main_function(*ir) == Some(Some(*def)),
                sv == structs_view(ir.structs),
                es == ir.decls.spec_entries(),
                n == es.len(),
                k <= n,
                state.wf(),
                state.ir == ir,
                state.stack@.len() == 0,
                state.stack_frame.func_name@ == "main"@,
                state.stack_frame.func_def == def,
                state.stack_frame.pc == (Pc { bid: def.bid_init, iid: 0 }),
                state.regs() == Map::<RegisterId, Value>::empty(),
                state.memory@.len() == k,
                globals_set(state.global_map, state.memory@, *ir, k as int),
                forall|j: int| 0 <= j < k ==> !global_init_errs(#[trigger] es[j].1, sv),
            decreases n - k,
        {
            let (name, decl) = ir.decls.entry(k);
            assert(global_ready(es[k as int].1, sv));
            let ghost g0 = state.global_map;
            let ghost m0 = state.memory@;
            let d = decl.dtype();
            let bid = state.memory.allocate(&d, &ir.structs).unwrap();
            proof {
                assert forall|j: int| 0 <= j < k implies es[j].0@ != name@ by {
                    ir.decls.lemma_index(j);
                    ir.decls.lemma_index(k as int);
                }
                if g0.vars().contains_key(name@) {
                    let j = choose|j: int| 0 <= j < k && es[j].0@ == name@;
                    assert(es[j].0@ != name@);
                }
                assert(!g0.bids().contains_key(bid));
            }
            let _ = state.global_map.insert(name.clone(), bid);
            let ghost m1 = state.memory@;
            match decl {
                Declaration::Variable { dtype, initializer } => {
                    let value = match initializer {
                        Some(init) => match Value::try_from_initializer(init, dtype, &ir.structs) {
                            Ok(v) => v,
                            Err(_) => {
                                proof {
                                    reveal_strlit("fail to translate `Initializer` and `");
                                    reveal_strlit("` to `Value`");
                                }
                                let mut msg = String::from_str("fail to translate `Initializer` and `");
                                let t = dtype.to_string();
                                msg.append(t.as_str());
                                msg.append("` to `Value`");
                                proof {
                                    assert(msg@ =~= init_failure(declaration_dtype(decl@)));
                                    assert(global_failure(es[k as int].1, k as int, sv, msg@));
                                }
                                let e = InterpreterError::Misc {
                                    func_name: state.stack_frame.func_name.clone(),
                                    pc: state.stack_frame.pc,
                                    msg,
                                };
                                proof {
                                    assert(main_function(*ir) matches Some(Some(_)));
                                    assert(forall|j: int| 0 <= j < k ==> !global_init_errs(#[trigger] es[j].1, sv));
                                    assert(e->Misc_func_name@ == "main"@);
                                    assert(e->Misc_pc == (Pc { bid: main_function(*ir).unwrap().unwrap().bid_init, iid: 0 }));
                                    assert(global_failure(es[k as int].1, k as int, sv, e->Misc_msg@));
                                    assert(start_error(*ir, e));
                                }
                                return Err(e);
                            },
                        },
                        None => Value::default_from_dtype(dtype, &ir.structs).unwrap(),
                    };
                    assert(global_value(es[k as int].1, sv, value));
                    assert(storable(value, sv));
                    let ghost before = state.memory@;
                    match state.memory.store(bid, 0, &value, &ir.structs) {
                        Ok(()) => {},
                        Err(()) => {
                            proof {
                                reveal_strlit("fail to store value into memory with bid: ");
                                reveal_strlit(", offset: ");
                            }
                            let mut msg = String::from_str("fail to store value into memory with bid: ");
                            crate::utils::push_decimal(&mut msg, bid as u128);
                            msg.append(", offset: ");
                            crate::utils::push_signed_decimal(&mut msg, 0);
                            proof {
                                assert(msg@ =~= super::machine::store_failure(k, 0));
                                assert(byte_size(value_dtype(value), sv) > byte_size(declaration_dtype(decl@), sv));
                                assert(global_failure(es[k as int].1, k as int, sv, msg@));
                            }
                            let e = InterpreterError::Misc {
                                func_name: state.stack_frame.func_name.clone(),
                                pc: state.stack_frame.pc,
                                msg,
                            };
                            proof {
                                assert(main_function(*ir) matches Some(Some(_)));
                                assert(forall|j: int| 0 <= j < k ==> !global_init_errs(#[trigger] es[j].1, sv));
                                assert(e->Misc_func_name@ == "main"@);
                                assert(e->Misc_pc == (Pc { bid: main_function(*ir).unwrap().unwrap().bid_init, iid: 0 }));
                                assert(global_failure(es[k as int].1, k as int, sv, e->Misc_msg@));
                                assert(start_error(*ir, e));
                            }
                            return Err(e);
                        },
                    }
                },
                Declaration::Function { .. } => {},
            }
            proof {
                assert(state.memory@.len() == k + 1);
                assert forall|j: int| 0 <= j < k implies state.memory@[j] == m0[j] by {}
                if decl is Variable {
                    let size = byte_size(declaration_dtype(decl@), sv);
                    assert(m1[k as int] == Some(undef_bytes(size)));
                } else {
                    assert(state.memory@[k as int] == Some(undef_bytes(byte_size(declaration_dtype(decl@), sv))));
                }
                assert(global_block(state.memory@[k as int], es[k as int].1, sv));
                assert forall|g: Seq<char>| #[trigger] state.global_map.vars().contains_key(g) <==> exists|j: int|
                    0 <= j < k + 1 && es[j].0@ == g by {
                    if g == name@ {
                        assert(es[k as int].0@ == g);
                    }
                    if exists|j: int| 0 <= j < k + 1 && es[j].0@ == g {
                        let j = choose|j: int| 0 <= j < k + 1 && es[j].0@ == g;
                        if j < k {
                            assert(g0.vars().contains_key(g));
                        }
                    }
                }
                assert forall|j: int| 0 <= j < k + 1 implies state.global_map.vars()[(#[trigger] es[j]).0@] == j
                    && global_block(state.memory@[j], es[j].1, sv) by {
                    if j < k {
                        assert(es[j].0@ != name@);
                        assert(g0.vars()[es[j].0@] == j);
                    }
                }
                assert forall|b: usize| #[trigger] state.global_map.bids().contains_key(b) <==> b < k + 1 by {
                    if b != bid {
                        assert(state.global_map.bids().contains_key(b) == g0.bids().contains_key(b));
                    }
                }
            }
            k = k + 1;
        }
        let ghost vals = args@;
        let mut args = args;
        let mut i: usize = args.len();
        while i > 0
            invariant
                vals.len() <= usize::MAX,
                i <= vals.len(),
                args@ == vals.take(i as int),
                state.wf(),
                state.ir == ir,
                state.stack@.len() == 0,
                state.stack_frame.func_name@ == "main"@,
                state.stack_frame.func_def == def,
                state.stack_frame.pc == (Pc { bid: def.bid_init, iid: 0 }),
                state.memory@.len() == n,
                globals_set(state.global_map, state.memory@, *ir, n as int),
                forall|r: RegisterId|
                    #[trigger] state.regs().contains_key(r) <==> (r matches RegisterId::Arg { bid, aid } && bid
                        == def.bid_init && i <= aid < vals.len()),
                forall|j: int|
                    i <= j < vals.len() ==> #[trigger] state.regs()[RegisterId::Arg { bid: def.bid_init, aid: j as usize }]
                        == vals[j],
            decreases i,
        {
            i = i - 1;
            let v = args.pop().unwrap();
            assert(v == vals[i as int]);
            let ghost before = state.regs();
            let rid = RegisterId::arg(def.bid_init, i);
            state.stack_frame.registers.write(rid, v);
            assert(args@ =~= vals.take(i as int));
            proof {
                assert(state.regs() == before.insert(rid, vals[i as int]));
                assert forall|r: RegisterId|
                    #[trigger] state.regs().contains_key(r) <==> (r matches RegisterId::Arg { bid, aid } && bid
                        == def.bid_init && i <= aid < vals.len()) by {
                    if r is Arg && r->Arg_bid == def.bid_init && r->Arg_aid == i {
                        assert(r == rid);
                    }
                    if r != rid {
                        assert(state.regs().contains_key(r) == before.contains_key(r));
                    }
                }
                assert forall|j: int|
                    i <= j < vals.len() implies #[trigger] state.regs()[RegisterId::Arg { bid: def.bid_init, aid: j as usize }]
                        == vals[j] by {
                    if j > i {
                        assert(before[RegisterId::Arg { bid: def.bid_init, aid: j as usize }] == vals[j]);
                    } else {
                        assert(RegisterId::Arg { bid: def.bid_init, aid: j as usize } == rid);
                    }
                }
            }
        }
        let ghost base = state.memory@;
        let mut a: usize = 0;
        while a < def.allocations.len()
            invariant
                start_ready(*ir),
                main_function(*ir) == Some(Some(*def)),
                sv == structs_view(ir.structs),
                es == ir.decls.spec_entries(),
                n == es.len(),
                n + def.allocations@.len() <= usize::MAX,
                vals.len() <= usize::MAX,
                base.len() == n,
                a <= def.allocations@.len(),
                state.wf(),
                state.ir == ir,
                state.stack@.len() == 0,
                state.stack_frame.func_name@ == "main"@,
                state.stack_frame.func_def == def,
                state.stack_frame.pc == (Pc { bid: def.bid_init, iid: 0 }),
                state.memory@ == base + Seq::new(
                    a as nat,
                    |j: int| Some(undef_bytes(byte_size(def.allocations@[j].inner@, sv))),
                ),
                globals_set(state.global_map, base, *ir, n as int),
                forall|j: int| 0 <= j < n ==> state.memory@[j] == base[j],
                forall|r: RegisterId|
                    #[trigger] state.regs().contains_key(r) <==> ((r matches RegisterId::Arg { bid, aid } && bid
                        == def.bid_init && aid < vals.len()) || (r matches RegisterId::Local { aid } && aid < a)),
                forall|j: int|
                    0 <= j < vals.len() ==> #[trigger] state.regs()[RegisterId::Arg { bid: def.bid_init, aid: j as usize }]
                        == vals[j],
                forall|j: int|
                    0 <= j < a ==> points_to_start(
                        #[trigger] state.regs()[RegisterId::Local { aid: j as usize }],
                        n + j,
                        def.allocations@[j].inner@,
                    ),
            decreases def.allocations@.len() - a,
        {
            let dd = &def.allocations[a].inner;
            let ghost head = state.regs();
            assert(state.memory@.len() == n + a);
            let b = state.memory.allocate(dd, &ir.structs).unwrap();
            assert(b == n + a);
            let ptr = Value::Pointer { bid: Some(b), offset: 0, dtype: dd.duplicate() };
            let ghost pv = ptr;
            let rid = RegisterId::local(a);
            state.stack_frame.registers.write(rid, ptr);
            proof {
                assert(state.regs() == head.insert(rid, pv));
                assert forall|r: RegisterId|
                    #[trigger] state.regs().contains_key(r) <==> ((r matches RegisterId::Arg { bid, aid } && bid
                        == def.bid_init && aid < vals.len()) || (r matches RegisterId::Local { aid } && aid < a + 1)) by {
                    if r is Local && r->Local_aid == a {
                        assert(r == rid);
                    }
                    if r != rid {
                        assert(state.regs().contains_key(r) == head.contains_key(r));
                    }
                }
                assert forall|j: int|
                    0 <= j < vals.len() implies #[trigger] state.regs()[RegisterId::Arg { bid: def.bid_init, aid: j as usize }]
                        == vals[j] by {
                    let key = RegisterId::Arg { bid: def.bid_init, aid: j as usize };
                    assert(key != rid);
                    assert(head[key] == vals[j]);
                }
                assert forall|j: int|
                    0 <= j < a + 1 implies points_to_start(
                        #[trigger] state.regs()[RegisterId::Local { aid: j as usize }],
                        n + j,
                        def.allocations@[j].inner@,
                    ) by {
                    if j < a {
                        assert(head[RegisterId::Local { aid: j as usize }] == state.regs()[RegisterId::Local { aid: j as usize }]);
                    } else {
                        assert(RegisterId::Local { aid: j as usize } == rid);
                    }
                }
            }
            a = a + 1;
            assert(state.memory@ =~= base + Seq::new(
                a as nat,
                |j: int| Some(undef_bytes(byte_size(def.allocations@[j].inner@, sv))),
            ));
        }
        proof {
            assert forall|j: int| 0 <= j < n implies state.memory@[j] == base[j] by {}
            assert(globals_set(state.global_map, state.memory@, *ir, n as int));
        }
        Ok(state)
    }
}


/// One step from `s` to `t` with result `r`: `step_effect`, keeping the global map and the
/// program, and leaving a usable state.
pub open spec fn stepped(s: State, t: State, r: Result<Option<Value>, InterpreterError>) -> bool {
    &&& s.step_effect(t, r)
    &&& t.wf()
    &&& t.global_map == s.global_map
    &&& t.ir == s.ir
}

/// Up to `fuel` steps from `s` do not panic: the state can step, and so can each state a
/// step that returns nothing leads to, with the fuel left.
pub open spec fn run_ready(s: State, fuel: nat) -> bool
    decreases fuel,
{
    fuel > 0 ==> {
        &&& s.step_ready()
        &&& forall|t: State| #[trigger] stepped(s, t, Ok(None)) ==> run_ready(t, (fuel - 1) as nat)
    }
}

/// Running at most `fuel` steps from `s` gives `r`: the value returned by `main`, an error of a
/// step, or nothing once the fuel is spent.
pub open spec fn run_outcome(s: State, fuel: nat, r: Result<Option<Value>, InterpreterError>) -> bool
    decreases fuel,
{
    if fuel == 0 {
        r == Ok::<Option<Value>, InterpreterError>(None)
    } else {
        exists|t: State, r1: Result<Option<Value>, InterpreterError>|
            #[trigger] stepped(s, t, r1) && match r1 {
                Ok(None) => run_outcome(t, (fuel - 1) as nat, r),
                _ => r == r1,
            }
    }
}

/// Runs `main` of `ir` with arguments `args` for at most `fuel` steps: the first state (see
/// `State::new`, whose errors come out), then one step after the other until `main` returns
/// its value, a step fails, or the fuel is spent (`Ok(None)`).
pub fn interp(ir: &TranslationUnit, args: Vec<Value>, fuel: usize) -> (r: Result<Option<Value>, InterpreterError>)
    requires
        start_ready(*ir),
        forall|s: State| #[trigger] start_state(*ir, args@, s) ==> run_ready(s, fuel as nat),
    ensures
        main_function(*ir) is None ==> r matches Err(InterpreterError::NoMainFunction),
        main_function(*ir) == Some(None::<FunctionDefinition>) ==> r matches Err(
            InterpreterError::NoFunctionDefinition { .. },
        ),
        (r matches Err(e) && start_error(*ir, e)) || exists|s: State|
            #[trigger] start_state(*ir, args@, s) && run_outcome(s, fuel as nat, r),
{
    let ghost av = args@;
    let mut state = match State::new(ir, args) {
        Ok(s) => s,
        Err(e) => {
            return Err(e);
        },
    };
    let ghost s0 = state;
    assert(start_state(*ir, av, s0));
    let mut i: usize = 0;
    while i < fuel
        invariant
            i <= fuel,
            av == args@,
            start_state(*ir, av, s0),
            state.wf(),
            run_ready(state, (fuel - i) as nat),
            forall|r: Result<Option<Value>, InterpreterError>|
                #[trigger] run_outcome(state, (fuel - i) as nat, r) ==> run_outcome(s0, fuel as nat, r),
        decreases fuel - i,
    {
        let ghost before = state;
        let r1 = state.step();
        proof {
            assert(stepped(before, state, r1));
        }
        match r1 {
            Ok(None) => {
                proof {
                    assert forall|r: Result<Option<Value>, InterpreterError>|
                        #[trigger] run_outcome(state, (fuel - i - 1) as nat, r) implies run_outcome(
                        s0,
                        fuel as nat,
                        r,
                    ) by {
                        assert(run_outcome(before, (fuel - i) as nat, r));
                    }
                }
                i = i + 1;
            },
            _ => {
                proof {
                    assert(run_outcome(before, (fuel - i) as nat, r1));
                    assert(run_outcome(s0, fuel as nat, r1));
                    assert(start_state(*ir, args@, s0));
                }
                return r1;
            },
        }
    }
    proof {
        assert(run_outcome(state, 0, Ok::<Option<Value>, InterpreterError>(None)));
    }
    Ok(None)
}

} // verus!
