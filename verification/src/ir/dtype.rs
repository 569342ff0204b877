//! Data types of the intermediate representation.
use vstd::prelude::*;

use super::Named;
use crate::utils::{decimal, push_decimal, StringMap};

verus! {

broadcast use vstd::std_specs::vec::axiom_vec_decreases_to_view;

/// An error in forming a data type.
#[derive(Debug)]
pub enum DtypeError {
    /// For uncommon error
    Misc { message: String },
}

impl DtypeError {
    /// The message the error carries.
    pub open spec fn message(&self) -> Seq<char> {
        match self {
            DtypeError::Misc { message } => message@,
        }
    }
}

/// Anything whose data type can be asked for.
pub trait HasDtype {
    /// The data type of `self`.
    fn dtype(&self) -> Dtype;
}

/// A data type.
#[derive(Debug)]
pub enum Dtype {
    Unit { is_const: bool },
    Int { width: usize, is_signed: bool, is_const: bool },
    Float { width: usize, is_const: bool },
    Pointer { inner: Box<Dtype>, is_const: bool },
    Array { inner: Box<Dtype>, size: usize },
    Struct {
        name: Option<String>,
        fields: Option<Vec<Named<Dtype>>>,
        is_const: bool,
        size_align_offsets: Option<(usize, usize, Vec<usize>)>,
    },
    Function { ret: Box<Dtype>, params: Vec<Dtype> },
    Typedef { name: String, is_const: bool },
}

/// The mathematical model of a data type: the same shape, with names as character sequences
/// and lists as sequences.
pub enum SpecDtype {
    Unit { is_const: bool },
    Int { width: usize, is_signed: bool, is_const: bool },
    Float { width: usize, is_const: bool },
    Pointer { inner: Box<SpecDtype>, is_const: bool },
    Array { inner: Box<SpecDtype>, size: usize },
    Struct {
        name: Option<Seq<char>>,
        fields: Option<Seq<(Option<Seq<char>>, SpecDtype)>>,
        is_const: bool,
        size_align_offsets: Option<(usize, usize, Seq<usize>)>,
    },
    Function { ret: Box<SpecDtype>, params: Seq<SpecDtype> },
    Typedef { name: Seq<char>, is_const: bool },
}

/// The view of an optional name.
pub open spec fn name_view(name: Option<String>) -> Option<Seq<char>> {
    match name {
        Some(s) => Some(s@),
        None => None,
    }
}

impl<T> Named<T> {
    /// The name, as a character sequence.
    pub open spec fn name_v(&self) -> Option<Seq<char>> {
        name_view(self.name)
    }
}

impl Dtype {
    /// The model of `self`.
    pub open spec fn spec_view(self) -> SpecDtype
        decreases self,
    {
        match self {
            Dtype::Unit { is_const } => SpecDtype::Unit { is_const },
            Dtype::Int { width, is_signed, is_const } => SpecDtype::Int { width, is_signed, is_const },
            Dtype::Float { width, is_const } => SpecDtype::Float { width, is_const },
            Dtype::Pointer { inner, is_const } => SpecDtype::Pointer {
                inner: Box::new((*inner).spec_view()),
                is_const,
            },
            Dtype::Array { inner, size } => SpecDtype::Array {
                inner: Box::new((*inner).spec_view()),
                size,
            },
            Dtype::Struct { name, fields, is_const, size_align_offsets } => SpecDtype::Struct {
                name: name_view(name),
                fields: match fields {
                    Some(fs) => Some(
                        Seq::new(
                            fs@.len(),
                            |i: int|
                                if 0 <= i < fs@.len() {
                                    (fs@[i].name_v(), fs@[i].inner.spec_view())
                                } else {
                                    (None, SpecDtype::Unit { is_const: false })
                                },
                        ),
                    ),
                    None => None,
                },
                is_const,
                size_align_offsets: match size_align_offsets {
                    Some((s, a, o)) => Some((s, a, o@)),
                    None => None,
                },
            },
            Dtype::Function { ret, params } => SpecDtype::Function {
                ret: Box::new((*ret).spec_view()),
                params: Seq::new(
                    params@.len(),
                    |i: int|
                        if 0 <= i < params@.len() {
                            params@[i].spec_view()
                        } else {
                            SpecDtype::Unit { is_const: false }
                        },
                ),
            },
            Dtype::Typedef { name, is_const } => SpecDtype::Typedef { name: name@, is_const },
        }
    }
}

impl View for Dtype {
    type V = SpecDtype;

    open spec fn view(&self) -> SpecDtype {
        self.spec_view()
    }
}

/// The model of a named field.
pub open spec fn field_view(f: Named<Dtype>) -> (Option<Seq<char>>, SpecDtype) {
    (f.name_v(), f.inner@)
}

/// The model of a list of fields.
pub open spec fn fields_view(fs: Seq<Named<Dtype>>) -> Seq<(Option<Seq<char>>, SpecDtype)> {
    fs.map_values(|f: Named<Dtype>| field_view(f))
}

/// The model of a list of data types.
pub open spec fn dtypes_view(ds: Seq<Dtype>) -> Seq<SpecDtype> {
    ds.map_values(|d: Dtype| d@)
}

/// The model of an optional data type.
pub open spec fn opt_view(d: Option<Dtype>) -> Option<SpecDtype> {
    match d {
        Some(d) => Some(d@),
        None => None,
    }
}

/// The model of a table of struct definitions.
pub open spec fn structs_view(t: StringMap<Option<Dtype>>) -> Map<Seq<char>, Option<SpecDtype>> {
    t.spec_map().map_values(|v: Option<Dtype>| opt_view(v))
}

/// The model of a table of type definitions.
pub open spec fn typedefs_view(t: StringMap<Dtype>) -> Map<Seq<char>, SpecDtype> {
    t.spec_map().map_values(|v: Dtype| v@)
}

pub proof fn lemma_struct_fields_view(d: Dtype)
    requires
        d matches Dtype::Struct { fields: Some(_), .. },
    ensures
        d matches Dtype::Struct { fields: Some(fs), .. } && d@ matches SpecDtype::Struct {
            fields: Some(vfs),
            ..
        } && vfs == fields_view(fs@),
{
    if let Dtype::Struct { fields: Some(fs), .. } = d {
        if let SpecDtype::Struct { fields: Some(vfs), .. } = d@ {
            assert(vfs =~= fields_view(fs@));
        }
    }
}

pub proof fn lemma_function_params_view(d: Dtype)
    requires
        d is Function,
    ensures
        d matches Dtype::Function { params, .. } && d@ matches SpecDtype::Function { params: vps, .. }
            && vps == dtypes_view(params@),
{
    if let Dtype::Function { params, .. } = d {
        if let SpecDtype::Function { params: vps, .. } = d@ {
            assert(vps =~= dtypes_view(params@));
        }
    }
}

/// The integer data type of the given width, signed and not `const`.
pub open spec fn spec_int(width: usize) -> SpecDtype {
    SpecDtype::Int { width, is_signed: true, is_const: false }
}

/// The floating-point data type of the given width, not `const`.
pub open spec fn spec_float(width: usize) -> SpecDtype {
    SpecDtype::Float { width, is_const: false }
}

/// `d` with its outermost `const` set to `is_const`, where the variant carries one.
pub open spec fn spec_set_const(d: SpecDtype, is_const: bool) -> SpecDtype {
    match d {
        SpecDtype::Unit { .. } => SpecDtype::Unit { is_const },
        SpecDtype::Int { width, is_signed, .. } => SpecDtype::Int { width, is_signed, is_const },
        SpecDtype::Float { width, .. } => SpecDtype::Float { width, is_const },
        SpecDtype::Pointer { inner, .. } => SpecDtype::Pointer { inner, is_const },
        SpecDtype::Array { .. } => d,
        SpecDtype::Struct { name, fields, size_align_offsets, .. } => SpecDtype::Struct {
            name,
            fields,
            is_const,
            size_align_offsets,
        },
        SpecDtype::Function { .. } => d,
        SpecDtype::Typedef { name, .. } => SpecDtype::Typedef { name, is_const },
    }
}

/// Whether `d` counts as `const`; arrays and functions always do.
pub open spec fn spec_is_const(d: SpecDtype) -> bool {
    match d {
        SpecDtype::Unit { is_const } => is_const,
        SpecDtype::Int { is_const, .. } => is_const,
        SpecDtype::Float { is_const, .. } => is_const,
        SpecDtype::Pointer { is_const, .. } => is_const,
        SpecDtype::Array { .. } => true,
        SpecDtype::Struct { is_const, .. } => is_const,
        SpecDtype::Function { .. } => true,
        SpecDtype::Typedef { is_const, .. } => is_const,
    }
}

/// The innermost element type of nested arrays.
pub open spec fn spec_array_elem(d: SpecDtype) -> SpecDtype
    decreases d,
{
    match d {
        SpecDtype::Array { inner, .. } => spec_array_elem(*inner),
        _ => d,
    }
}

/// `base` with a dimension of `size` added as its innermost array dimension.
pub open spec fn spec_array(base: SpecDtype, size: usize) -> SpecDtype
    decreases base,
{
    match base {
        SpecDtype::Array { inner, size: old_size } => SpecDtype::Array {
            inner: Box::new(spec_array(*inner, size)),
            size: old_size,
        },
        _ => SpecDtype::Array { inner: Box::new(base), size },
    }
}

/// Whether a value of type `d` cannot be assigned to, looking struct definitions up in
/// `structs` at most `fuel` levels deep; `None` where that is not enough or the lookup fails.
///
/// Scalars follow their `const`; arrays and functions are immutable; a struct is immutable if it
/// is `const` or one of its fields is, a field of array type counting by its element type.
pub open spec fn spec_immutable(d: SpecDtype, structs: Map<Seq<char>, Option<SpecDtype>>, fuel: nat) -> Option<bool>
    decreases fuel, 0int,
{
    match d {
        SpecDtype::Unit { is_const } => Some(is_const),
        SpecDtype::Int { is_const, .. } => Some(is_const),
        SpecDtype::Float { is_const, .. } => Some(is_const),
        SpecDtype::Pointer { is_const, .. } => Some(is_const),
        SpecDtype::Array { .. } => Some(true),
        SpecDtype::Function { .. } => Some(true),
        SpecDtype::Typedef { .. } => None,
        SpecDtype::Struct { name, is_const, .. } => {
            if fuel == 0 || name is None || !structs.contains_key(name.unwrap()) {
                None
            } else {
                match structs[name.unwrap()] {
                    Some(SpecDtype::Struct { fields: Some(fs), .. }) => {
                        if is_const {
                            Some(true)
                        } else {
                            spec_fields_immutable(fs, structs, (fuel - 1) as nat, 0)
                        }
                    },
                    _ => None,
                }
            }
        },
    }
}

/// Whether one of the fields from index `i` on is immutable, evaluated in order.
pub open spec fn spec_fields_immutable(
    fs: Seq<(Option<Seq<char>>, SpecDtype)>,
    structs: Map<Seq<char>, Option<SpecDtype>>,
    fuel: nat,
    i: int,
) -> Option<bool>
    decreases fuel, fs.len() - i + 1,
{
    if i < 0 || i >= fs.len() {
        Some(false)
    } else {
        match spec_immutable(spec_array_elem(fs[i].1), structs, fuel) {
            None => None,
            Some(true) => Some(true),
            Some(false) => spec_fields_immutable(fs, structs, fuel, i + 1),
        }
    }
}

/// Deciding whether `d` is immutable terminates without panic.
pub open spec fn immutable_defined(d: SpecDtype, structs: Map<Seq<char>, Option<SpecDtype>>) -> bool {
    exists|fuel: nat| #[trigger] spec_immutable(d, structs, fuel) is Some
}

/// Whether a value of type `d` cannot be assigned to.
pub open spec fn spec_is_immutable(d: SpecDtype, structs: Map<Seq<char>, Option<SpecDtype>>) -> bool {
    spec_immutable(d, structs, choose|fuel: nat| #[trigger] spec_immutable(d, structs, fuel) is Some)->Some_0
}

/// The message of the error for a type name without definition.
pub open spec fn unknown_type_msg(name: Seq<char>) -> Seq<char> {
    "unknown type name `"@ + name + "`"@
}

/// `d` with every type name replaced by its definition in `typedefs`: `None` where the
/// computation panics (a struct without fields and without name), an error for the first type
/// name met without definition. A resolved struct that has fields loses its layout.
pub open spec fn spec_resolve_typedefs(d: SpecDtype, typedefs: Map<Seq<char>, SpecDtype>) -> Option<
    Result<SpecDtype, Seq<char>>,
>
    decreases d,
{
    match d {
        SpecDtype::Pointer { inner, is_const } => match spec_resolve_typedefs(*inner, typedefs) {
            Some(Ok(i)) => Some(Ok(SpecDtype::Pointer { inner: Box::new(i), is_const })),
            Some(Err(e)) => Some(Err(e)),
            None => None,
        },
        SpecDtype::Array { inner, size } => match spec_resolve_typedefs(*inner, typedefs) {
            Some(Ok(i)) => Some(Ok(SpecDtype::Array { inner: Box::new(i), size })),
            Some(Err(e)) => Some(Err(e)),
            None => None,
        },
        SpecDtype::Struct { name, fields, is_const, .. } => match fields {
            Some(fs) => match spec_resolve_fields(fs, typedefs) {
                Some(Ok(rfs)) => Some(
                    Ok(
                        SpecDtype::Struct {
                            name,
                            fields: Some(rfs),
                            is_const,
                            size_align_offsets: None,
                        },
                    ),
                ),
                Some(Err(e)) => Some(Err(e)),
                None => None,
            },
            None => if name is None {
                None
            } else {
                Some(Ok(d))
            },
        },
        SpecDtype::Function { ret, params } => match spec_resolve_typedefs(*ret, typedefs) {
            Some(Ok(r)) => match spec_resolve_list(params, typedefs) {
                Some(Ok(ps)) => Some(Ok(SpecDtype::Function { ret: Box::new(r), params: ps })),
                Some(Err(e)) => Some(Err(e)),
                None => None,
            },
            Some(Err(e)) => Some(Err(e)),
            None => None,
        },
        SpecDtype::Typedef { name, is_const } => if typedefs.contains_key(name) {
            let t = typedefs[name];
            Some(Ok(spec_set_const(t, spec_is_const(t) || is_const)))
        } else {
            Some(Err(unknown_type_msg(name)))
        },
        _ => Some(Ok(d)),
    }
}

/// Resolves the type names of each field in order, keeping the names of the fields.
pub open spec fn spec_resolve_fields(
    fs: Seq<(Option<Seq<char>>, SpecDtype)>,
    typedefs: Map<Seq<char>, SpecDtype>,
) -> Option<Result<Seq<(Option<Seq<char>>, SpecDtype)>, Seq<char>>>
    decreases fs,
{
    if fs.len() == 0 {
        Some(Ok(seq![]))
    } else {
        match spec_resolve_fields(fs.subrange(0, fs.len() - 1), typedefs) {
            Some(Ok(rfs)) => match spec_resolve_typedefs(fs[fs.len() - 1].1, typedefs) {
                Some(Ok(r)) => Some(Ok(rfs.push((fs[fs.len() - 1].0, r)))),
                Some(Err(e)) => Some(Err(e)),
                None => None,
            },
            other => other,
        }
    }
}

/// Resolves the type names of each type of a list in order.
pub open spec fn spec_resolve_list(ds: Seq<SpecDtype>, typedefs: Map<Seq<char>, SpecDtype>) -> Option<
    Result<Seq<SpecDtype>, Seq<char>>,
>
    decreases ds,
{
    if ds.len() == 0 {
        Some(Ok(seq![]))
    } else {
        match spec_resolve_list(ds.subrange(0, ds.len() - 1), typedefs) {
            Some(Ok(rds)) => match spec_resolve_typedefs(ds[ds.len() - 1], typedefs) {
                Some(Ok(r)) => Some(Ok(rds.push(r))),
                Some(Err(e)) => Some(Err(e)),
                None => None,
            },
            other => other,
        }
    }
}

/// The message of the error for a struct name that has no entry.
pub open spec fn unknown_struct_msg(name: Seq<char>) -> Seq<char> {
    "unknown struct name `"@ + name + "`"@
}

/// Size and alignment in bytes of `d`, or the name of a struct that has no entry in `structs`.
pub open spec fn spec_size_align(d: SpecDtype, structs: Map<Seq<char>, Option<SpecDtype>>) -> Result<
    (int, int),
    Seq<char>,
>
    decreases d,
{
    match d {
        SpecDtype::Unit { .. } => Ok((0, 1)),
        SpecDtype::Int { width, .. } => Ok(((width + 7) / 8, (width + 7) / 8)),
        SpecDtype::Float { width, .. } => Ok(((width + 7) / 8, (width + 7) / 8)),
        SpecDtype::Pointer { .. } => Ok((8, 8)),
        SpecDtype::Array { inner, size } => match spec_size_align(*inner, structs) {
            Ok((si, ai)) => Ok((size * (if si >= ai { si } else { ai }), ai)),
            Err(n) => Err(n),
        },
        SpecDtype::Struct { name, .. } => {
            let n = name.unwrap();
            if !structs.contains_key(n) {
                Err(n)
            } else {
                match structs[n] {
                    Some(SpecDtype::Struct { size_align_offsets: Some((s, a, _)), .. }) => Ok(
                        (s as int, a as int),
                    ),
                    _ => Ok((0, 1)),
                }
            }
        },
        SpecDtype::Function { .. } => Ok((0, 1)),
        SpecDtype::Typedef { .. } => Ok((0, 1)),
    }
}

/// The inputs on which computing the size and alignment of `d` neither panics nor overflows:
/// no typedef is left, every struct is named and, where it has an entry, defined with its
/// layout, and every size fits in a `usize`.
pub open spec fn size_align_ok(d: SpecDtype, structs: Map<Seq<char>, Option<SpecDtype>>) -> bool
    decreases d,
{
    match d {
        SpecDtype::Int { width, .. } => width + 8 <= usize::MAX,
        SpecDtype::Float { width, .. } => width + 8 <= usize::MAX,
        SpecDtype::Array { inner, size } => size_align_ok(*inner, structs) && (spec_size_align(
            *inner,
            structs,
        ) matches Ok((si, ai)) ==> size * (if si >= ai { si } else { ai }) <= usize::MAX),
        SpecDtype::Struct { name, .. } => name is Some && (structs.contains_key(name.unwrap())
            ==> structs[name.unwrap()] matches Some(
            SpecDtype::Struct { size_align_offsets: Some(_), .. },
        )),
        SpecDtype::Typedef { .. } => false,
        _ => true,
    }
}

/// Sizes and alignments of a list of fields, or the unknown struct name met first.
pub open spec fn spec_fields_size_align(
    fs: Seq<(Option<Seq<char>>, SpecDtype)>,
    structs: Map<Seq<char>, Option<SpecDtype>>,
) -> Result<Seq<(int, int)>, Seq<char>>
    decreases fs.len(),
{
    if fs.len() == 0 {
        Ok(seq![])
    } else {
        match spec_fields_size_align(fs.drop_last(), structs) {
            Err(n) => Err(n),
            Ok(sas) => match spec_size_align(fs.last().1, structs) {
                Err(n) => Err(n),
                Ok(sa) => Ok(sas.push(sa)),
            },
        }
    }
}

/// `offset` rounded up to a multiple of `align`.
pub open spec fn spec_align_up(offset: int, align: int) -> int {
    if offset % align != 0 {
        offset + (align - offset % align)
    } else {
        offset
    }
}

/// Lays out fields of the given sizes and alignments one after another, each at the first
/// offset aligned for it: the offset where the last one ends, and the offset of each.
pub open spec fn spec_field_layout(sas: Seq<(int, int)>) -> (int, Seq<int>)
    decreases sas.len(),
{
    if sas.len() == 0 {
        (0, seq![])
    } else {
        let (end, offsets) = spec_field_layout(sas.drop_last());
        let start = spec_align_up(end, sas.last().1);
        (start + sas.last().0, offsets.push(start))
    }
}

/// Every offset met while laying out the fields fits in a `usize`.
pub open spec fn spec_field_layout_fits(sas: Seq<(int, int)>) -> bool
    decreases sas.len(),
{
    if sas.len() == 0 {
        true
    } else {
        spec_field_layout_fits(sas.drop_last()) && spec_field_layout(sas).0 <= usize::MAX
    }
}

/// The largest alignment of a list, 0 for the empty list.
pub open spec fn spec_max_align(sas: Seq<(int, int)>) -> int
    decreases sas.len(),
{
    if sas.len() == 0 {
        0
    } else {
        let m = spec_max_align(sas.drop_last());
        if m >= sas.last().1 {
            m
        } else {
            sas.last().1
        }
    }
}

/// The size of a struct whose fields end at `end`: `end` rounded up to a multiple of `align`.
pub open spec fn spec_struct_size(end: int, align: int) -> int {
    ((end - 1) / align + 1) * align
}

/// The inputs on which laying out a struct with these fields neither panics nor overflows.
pub open spec fn struct_layout_ok(
    fs: Seq<(Option<Seq<char>>, SpecDtype)>,
    structs: Map<Seq<char>, Option<SpecDtype>>,
) -> bool {
    &&& forall|i: int| 0 <= i < fs.len() ==> size_align_ok(#[trigger] fs[i].1, structs)
    &&& fs.len() > 0 ==> (spec_fields_size_align(fs, structs) matches Ok(sas) ==> {
        &&& forall|i: int| 0 <= i < sas.len() ==> #[trigger] sas[i].1 > 0
        &&& spec_field_layout_fits(sas)
        &&& spec_field_layout(sas).0 > 0
        &&& spec_struct_size(spec_field_layout(sas).0, spec_max_align(sas)) <= usize::MAX
    })
}

/// The size, alignment and field offsets of a struct with these fields.
pub open spec fn spec_struct_layout(sas: Seq<(int, int)>) -> (int, int, Seq<int>) {
    if sas.len() == 0 {
        (0, 1, seq![])
    } else {
        let (end, offsets) = spec_field_layout(sas);
        let align = spec_max_align(sas);
        (spec_struct_size(end, align), align, offsets)
    }
}

pub proof fn lemma_field_layout_len(sas: Seq<(int, int)>)
    ensures
        spec_field_layout(sas).1.len() == sas.len(),
    decreases sas.len(),
{
    if sas.len() > 0 {
        lemma_field_layout_len(sas.drop_last());
    }
}

pub proof fn lemma_fields_size_align_len(
    fs: Seq<(Option<Seq<char>>, SpecDtype)>,
    structs: Map<Seq<char>, Option<SpecDtype>>,
)
    ensures
        spec_fields_size_align(fs, structs) matches Ok(sas) ==> sas.len() == fs.len() && forall|i: int|
            0 <= i < fs.len() ==> spec_size_align(#[trigger] fs[i].1, structs) == Ok::<(int, int), Seq<char>>(sas[i]),
    decreases fs.len(),
{
    if fs.len() > 0 {
        lemma_fields_size_align_len(fs.drop_last(), structs);
        if let Ok(sas) = spec_fields_size_align(fs, structs) {
            let sas0 = spec_fields_size_align(fs.drop_last(), structs)->Ok_0;
            assert forall|i: int| 0 <= i < fs.len() implies spec_size_align(#[trigger] fs[i].1, structs) == Ok::<(int, int), Seq<char>>(sas[i]) by {
                if i < fs.len() - 1 {
                    assert(fs.drop_last()[i] == fs[i]);
                }
            }
        }
    }
}

pub proof fn lemma_max_align_pos(sas: Seq<(int, int)>)
    requires
        sas.len() > 0,
        forall|i: int| 0 <= i < sas.len() ==> #[trigger] sas[i].1 > 0,
    ensures
        spec_max_align(sas) > 0,
    decreases sas.len(),
{
    if sas.len() > 1 {
        lemma_max_align_pos(sas.drop_last());
    }
}


/// Pairs of machine integers as pairs of integers.
pub open spec fn sa_ints(s: Seq<(usize, usize)>) -> Seq<(int, int)> {
    s.map_values(|p: (usize, usize)| (p.0 as int, p.1 as int))
}

/// Machine integers as integers.
pub open spec fn usizes_ints(s: Seq<usize>) -> Seq<int> {
    s.map_values(|x: usize| x as int)
}

pub proof fn lemma_fields_size_align_prefix_err(
    fs: Seq<(Option<Seq<char>>, SpecDtype)>,
    structs: Map<Seq<char>, Option<SpecDtype>>,
    k: int,
)
    requires
        0 <= k <= fs.len(),
        spec_fields_size_align(fs.take(k), structs) is Err,
    ensures
        spec_fields_size_align(fs, structs) == spec_fields_size_align(fs.take(k), structs),
    decreases fs.len() - k,
{
    if k < fs.len() {
        let t = fs.take(k + 1);
        assert(t.drop_last() =~= fs.take(k));
        lemma_fields_size_align_prefix_err(fs, structs, k + 1);
    } else {
        assert(fs.take(k) =~= fs);
    }
}

pub proof fn lemma_field_layout_fits_prefix(sas: Seq<(int, int)>, k: int)
    requires
        0 <= k <= sas.len(),
        spec_field_layout_fits(sas),
    ensures
        spec_field_layout_fits(sas.take(k)),
        k > 0 ==> spec_field_layout(sas.take(k)).0 <= usize::MAX,
    decreases sas.len() - k,
{
    if k < sas.len() {
        lemma_field_layout_fits_prefix(sas, k + 1);
        assert(sas.take(k + 1).drop_last() =~= sas.take(k));
    } else {
        assert(sas.take(k) =~= sas);
    }
}

pub proof fn lemma_field_layout_mono(sas: Seq<(int, int)>)
    requires
        forall|i: int| 0 <= i < sas.len() ==> #[trigger] sas[i].1 > 0 && sas[i].0 >= 0,
    ensures
        spec_field_layout(sas).0 >= 0,
        sas.len() > 0 ==> spec_align_up(spec_field_layout(sas.drop_last()).0, sas.last().1)
            >= spec_field_layout(sas.drop_last()).0,
    decreases sas.len(),
{
    if sas.len() > 0 {
        let d = sas.drop_last();
        assert forall|i: int| 0 <= i < d.len() implies #[trigger] d[i].1 > 0 && d[i].0 >= 0 by {
            assert(d[i] == sas[i]);
        }
        lemma_field_layout_mono(d);
        let end = spec_field_layout(d).0;
        let a = sas.last().1;
        assert(end % a < a);
    }
}

/// A copy of an optional name.
pub fn clone_name(name: &Option<String>) -> (r: Option<String>)
    ensures
        name_view(r) == name_view(*name),
{
    match name {
        Some(s) => Some(s.clone()),
        None => None,
    }
}

/// A copy of a list of machine integers.
pub fn clone_usizes(v: &Vec<usize>) -> (r: Vec<usize>)
    ensures
        r@ == v@,
{
    let mut out: Vec<usize> = Vec::new();
    let mut i: usize = 0;
    while i < v.len()
        invariant
            i <= v@.len(),
            out@ == v@.take(i as int),
        decreases v@.len() - i,
    {
        out.push(v[i]);
        i = i + 1;
        assert(out@ =~= v@.take(i as int));
    }
    assert(v@.take(v@.len() as int) =~= v@);
    out
}

pub proof fn lemma_resolve_fields_prefix(
    fs: Seq<(Option<Seq<char>>, SpecDtype)>,
    typedefs: Map<Seq<char>, SpecDtype>,
    k: int,
)
    requires
        0 <= k <= fs.len(),
        !(spec_resolve_fields(fs.take(k), typedefs) is Some && spec_resolve_fields(fs.take(k), typedefs)->Some_0 is Ok),
    ensures
        spec_resolve_fields(fs, typedefs) == spec_resolve_fields(fs.take(k), typedefs),
    decreases fs.len() - k,
{
    if k < fs.len() {
        assert(fs.take(k + 1).subrange(0, k) =~= fs.take(k));
        lemma_resolve_fields_prefix(fs, typedefs, k + 1);
    } else {
        assert(fs.take(k) =~= fs);
    }
}

pub proof fn lemma_resolve_list_prefix(ds: Seq<SpecDtype>, typedefs: Map<Seq<char>, SpecDtype>, k: int)
    requires
        0 <= k <= ds.len(),
        !(spec_resolve_list(ds.take(k), typedefs) is Some && spec_resolve_list(ds.take(k), typedefs)->Some_0 is Ok),
    ensures
        spec_resolve_list(ds, typedefs) == spec_resolve_list(ds.take(k), typedefs),
    decreases ds.len() - k,
{
    if k < ds.len() {
        assert(ds.take(k + 1).subrange(0, k) =~= ds.take(k));
        lemma_resolve_list_prefix(ds, typedefs, k + 1);
    } else {
        assert(ds.take(k) =~= ds);
    }
}

/// The message of the error for a struct defined twice.
pub open spec fn redefinition_msg(name: Seq<char>) -> Seq<char> {
    "redefinition of "@ + name
}

/// The message of the error for a struct that is declared but never defined.
pub open spec fn incomplete_msg(name: Seq<char>) -> Seq<char> {
    "variable has incomplete type 'struct "@ + name + "'"@
}

/// The name given to the anonymous struct numbered `id`.
pub open spec fn temp_struct_name(id: nat) -> Seq<char> {
    "%t"@ + decimal(id)
}

/// Integers as machine integers.
pub open spec fn ints_usizes(s: Seq<int>) -> Seq<usize> {
    s.map_values(|x: int| x as usize)
}

/// The definition of struct `name` with fields `fs` of sizes and alignments `sas`, laid out.
pub open spec fn spec_filled_struct(
    name: Seq<char>,
    fs: Seq<(Option<Seq<char>>, SpecDtype)>,
    sas: Seq<(int, int)>,
) -> SpecDtype {
    let l = spec_struct_layout(sas);
    SpecDtype::Struct {
        name: Some(name),
        fields: Some(fs),
        is_const: false,
        size_align_offsets: Some((l.0 as usize, l.1 as usize, ints_usizes(l.2))),
    }
}

/// Collects the struct definitions of `d` into the table, innermost first, naming anonymous
/// structs `%t<n>` by the counter: the type with each defined struct replaced by a reference
/// to it by name, or the error met first, with the table and counter after the work. `None`
/// where the computation panics or overflows.
///
/// A pointer to a struct that is only declared registers the name without definition. A struct
/// that is only declared must already have a definition. A struct defined twice is an error,
/// after its second definition has replaced the first.
pub open spec fn spec_resolve_structs(
    d: SpecDtype,
    st: Map<Seq<char>, Option<SpecDtype>>,
    c: nat,
) -> Option<(Result<SpecDtype, Seq<char>>, Map<Seq<char>, Option<SpecDtype>>, nat)>
    decreases d,
{
    match d {
        SpecDtype::Pointer { inner, is_const } => match *inner {
            SpecDtype::Struct { name, fields: None, .. } => match name {
                None => None,
                Some(n) => Some(
                    (
                        Ok(d),
                        if st.contains_key(n) {
                            st
                        } else {
                            st.insert(n, None)
                        },
                        c,
                    ),
                ),
            },
            _ => match spec_resolve_structs(*inner, st, c) {
                Some((Ok(i), st2, c2)) => Some(
                    (Ok(SpecDtype::Pointer { inner: Box::new(i), is_const }), st2, c2),
                ),
                other => other,
            },
        },
        SpecDtype::Array { inner, size } => match spec_resolve_structs(*inner, st, c) {
            Some((Ok(i), st2, c2)) => Some((Ok(SpecDtype::Array { inner: Box::new(i), size }), st2, c2)),
            other => other,
        },
        SpecDtype::Struct { name, fields, is_const, .. } => match fields {
            Some(fs) => match spec_resolve_struct_fields(fs, st, c) {
                Some((Ok(rfs), st2, c2)) => {
                    if name is None && c2 >= usize::MAX {
                        None
                    } else {
                        let nm = match name {
                            Some(n) => n,
                            None => temp_struct_name(c2),
                        };
                        let c3 = if name is None {
                            c2 + 1
                        } else {
                            c2
                        };
                        if !struct_layout_ok(rfs, st2) {
                            None
                        } else {
                            match spec_fields_size_align(rfs, st2) {
                                Err(n) => Some((Err(unknown_struct_msg(n)), st2, c3)),
                                Ok(sas) => {
                                    let st3 = st2.insert(nm, Some(spec_filled_struct(nm, rfs, sas)));
                                    if st2.contains_key(nm) && st2[nm] is Some {
                                        Some((Err(redefinition_msg(nm)), st3, c3))
                                    } else {
                                        Some(
                                            (
                                                Ok(
                                                    SpecDtype::Struct {
                                                        name: Some(nm),
                                                        fields: None,
                                                        is_const,
                                                        size_align_offsets: None,
                                                    },
                                                ),
                                                st3,
                                                c3,
                                            ),
                                        )
                                    }
                                },
                            }
                        }
                    }
                },
                Some((Err(e), st2, c2)) => Some((Err(e), st2, c2)),
                None => None,
            },
            None => match name {
                None => None,
                Some(n) => if !st.contains_key(n) {
                    Some((Err(unknown_struct_msg(n)), st, c))
                } else if st[n] is None {
                    Some((Err(incomplete_msg(n)), st, c))
                } else {
                    Some((Ok(d), st, c))
                },
            },
        },
        SpecDtype::Function { ret, params } => match spec_resolve_structs(*ret, st, c) {
            Some((Ok(r), st2, c2)) => match spec_resolve_struct_list(params, st2, c2) {
                Some((Ok(ps), st3, c3)) => Some(
                    (Ok(SpecDtype::Function { ret: Box::new(r), params: ps }), st3, c3),
                ),
                Some((Err(e), st3, c3)) => Some((Err(e), st3, c3)),
                None => None,
            },
            Some((Err(e), st2, c2)) => Some((Err(e), st2, c2)),
            None => None,
        },
        SpecDtype::Typedef { .. } => None,
        _ => Some((Ok(d), st, c)),
    }
}

/// Collects the struct definitions of each field in order, keeping the names of the fields.
pub open spec fn spec_resolve_struct_fields(
    fs: Seq<(Option<Seq<char>>, SpecDtype)>,
    st: Map<Seq<char>, Option<SpecDtype>>,
    c: nat,
) -> Option<(Result<Seq<(Option<Seq<char>>, SpecDtype)>, Seq<char>>, Map<Seq<char>, Option<SpecDtype>>, nat)>
    decreases fs,
{
    if fs.len() == 0 {
        Some((Ok(seq![]), st, c))
    } else {
        match spec_resolve_struct_fields(fs.subrange(0, fs.len() - 1), st, c) {
            Some((Ok(rfs), st2, c2)) => match spec_resolve_structs(fs[fs.len() - 1].1, st2, c2) {
                Some((Ok(r), st3, c3)) => Some((Ok(rfs.push((fs[fs.len() - 1].0, r))), st3, c3)),
                Some((Err(e), st3, c3)) => Some((Err(e), st3, c3)),
                None => None,
            },
            other => other,
        }
    }
}

/// Collects the struct definitions of each type of a list in order.
pub open spec fn spec_resolve_struct_list(
    ds: Seq<SpecDtype>,
    st: Map<Seq<char>, Option<SpecDtype>>,
    c: nat,
) -> Option<(Result<Seq<SpecDtype>, Seq<char>>, Map<Seq<char>, Option<SpecDtype>>, nat)>
    decreases ds,
{
    if ds.len() == 0 {
        Some((Ok(seq![]), st, c))
    } else {
        match spec_resolve_struct_list(ds.subrange(0, ds.len() - 1), st, c) {
            Some((Ok(rds), st2, c2)) => match spec_resolve_structs(ds[ds.len() - 1], st2, c2) {
                Some((Ok(r), st3, c3)) => Some((Ok(rds.push(r)), st3, c3)),
                Some((Err(e), st3, c3)) => Some((Err(e), st3, c3)),
                None => None,
            },
            other => other,
        }
    }
}

/// Whether a type mentions struct types by name only: no struct in it carries its fields.
pub open spec fn struct_free(d: SpecDtype) -> bool
    decreases d,
{
    match d {
        SpecDtype::Pointer { inner, .. } => struct_free(*inner),
        SpecDtype::Array { inner, .. } => struct_free(*inner),
        SpecDtype::Struct { fields, .. } => fields is None,
        SpecDtype::Function { ret, params } => struct_free(*ret) && structs_free(params),
        _ => true,
    }
}

/// Whether each type of a list mentions struct types by name only.
pub open spec fn structs_free(ds: Seq<SpecDtype>) -> bool
    decreases ds,
{
    if ds.len() == 0 {
        true
    } else {
        structs_free(ds.drop_last()) && struct_free(ds.last())
    }
}

/// Collecting struct definitions leaves, where it succeeds, a type that mentions structs by
/// name only; the table keeps every name it had, and the counter never goes down.
pub proof fn lemma_resolve_structs_by_name(d: SpecDtype, st: Map<Seq<char>, Option<SpecDtype>>, c: nat)
    ensures
        spec_resolve_structs(d, st, c) matches Some((res, st2, c2)) ==> (res matches Ok(r) ==> struct_free(r))
            && st.dom().subset_of(st2.dom()) && c <= c2,
    decreases d,
{
    match d {
        SpecDtype::Pointer { inner, is_const } => {
            if let SpecDtype::Struct { name: Some(n), fields: None, .. } = *inner {
                assert(struct_free(*inner));
                assert(struct_free(d));
                assert(st.dom().subset_of(st.insert(n, None).dom()));
            } else {
                lemma_resolve_structs_by_name(*inner, st, c);
                if let Some((Ok(i), st2, c2)) = spec_resolve_structs(*inner, st, c) {
                    assert(struct_free(SpecDtype::Pointer { inner: Box::new(i), is_const }));
                }
            }
        },
        SpecDtype::Array { inner, .. } => {
            lemma_resolve_structs_by_name(*inner, st, c);
        },
        SpecDtype::Struct { fields: Some(fs), .. } => {
            lemma_resolve_struct_fields_by_name(fs, st, c);
        },
        SpecDtype::Function { ret, params } => {
            lemma_resolve_structs_by_name(*ret, st, c);
            if let Some((Ok(_), st2, c2)) = spec_resolve_structs(*ret, st, c) {
                lemma_resolve_struct_list_by_name(params, st2, c2);
            }
        },
        _ => {},
    }
}

/// Collecting the struct definitions of fields keeps the table's names and never lowers the
/// counter.
pub proof fn lemma_resolve_struct_fields_by_name(
    fs: Seq<(Option<Seq<char>>, SpecDtype)>,
    st: Map<Seq<char>, Option<SpecDtype>>,
    c: nat,
)
    ensures
        spec_resolve_struct_fields(fs, st, c) matches Some((_, st2, c2)) ==> st.dom().subset_of(st2.dom()) && c
            <= c2,
    decreases fs,
{
    if fs.len() > 0 {
        lemma_resolve_struct_fields_by_name(fs.subrange(0, fs.len() - 1), st, c);
        if let Some((Ok(_), st2, c2)) = spec_resolve_struct_fields(fs.subrange(0, fs.len() - 1), st, c) {
            lemma_resolve_structs_by_name(fs[fs.len() - 1].1, st2, c2);
        }
    }
}

/// Collecting the struct definitions of a list of types leaves, where it succeeds, types that
/// mention structs by name only; the table keeps its names and the counter never goes down.
pub proof fn lemma_resolve_struct_list_by_name(ds: Seq<SpecDtype>, st: Map<Seq<char>, Option<SpecDtype>>, c: nat)
    ensures
        spec_resolve_struct_list(ds, st, c) matches Some((res, st2, c2)) ==> (res matches Ok(rs) ==> structs_free(
            rs,
        )) && st.dom().subset_of(st2.dom()) && c <= c2,
    decreases ds,
{
    if ds.len() > 0 {
        let init = ds.subrange(0, ds.len() - 1);
        lemma_resolve_struct_list_by_name(init, st, c);
        if let Some((Ok(rds), st2, c2)) = spec_resolve_struct_list(init, st, c) {
            lemma_resolve_structs_by_name(ds[ds.len() - 1], st2, c2);
            if let Some((Ok(r), st3, c3)) = spec_resolve_structs(ds[ds.len() - 1], st2, c2) {
                assert(rds.push(r).drop_last() =~= rds);
            }
        }
    }
}

pub proof fn lemma_resolve_struct_fields_prefix(
    fs: Seq<(Option<Seq<char>>, SpecDtype)>,
    st: Map<Seq<char>, Option<SpecDtype>>,
    c: nat,
    k: int,
)
    requires
        0 <= k <= fs.len(),
        !(spec_resolve_struct_fields(fs.take(k), st, c) matches Some((Ok(_), _, _))),
    ensures
        spec_resolve_struct_fields(fs, st, c) == spec_resolve_struct_fields(fs.take(k), st, c),
    decreases fs.len() - k,
{
    if k < fs.len() {
        assert(fs.take(k + 1).subrange(0, k) =~= fs.take(k));
        lemma_resolve_struct_fields_prefix(fs, st, c, k + 1);
    } else {
        assert(fs.take(k) =~= fs);
    }
}

pub proof fn lemma_resolve_struct_list_prefix(
    ds: Seq<SpecDtype>,
    st: Map<Seq<char>, Option<SpecDtype>>,
    c: nat,
    k: int,
)
    requires
        0 <= k <= ds.len(),
        !(spec_resolve_struct_list(ds.take(k), st, c) matches Some((Ok(_), _, _))),
    ensures
        spec_resolve_struct_list(ds, st, c) == spec_resolve_struct_list(ds.take(k), st, c),
    decreases ds.len() - k,
{
    if k < ds.len() {
        assert(ds.take(k + 1).subrange(0, k) =~= ds.take(k));
        lemma_resolve_struct_list_prefix(ds, st, c, k + 1);
    } else {
        assert(ds.take(k) =~= ds);
    }
}

/// Inserting into a table of struct definitions inserts the model of the value into its model.
pub proof fn lemma_structs_view_insert(
    before: StringMap<Option<Dtype>>,
    after: StringMap<Option<Dtype>>,
    key: Seq<char>,
    value: Option<Dtype>,
)
    requires
        after.spec_map() == before.spec_map().insert(key, value),
    ensures
        structs_view(after) == structs_view(before).insert(key, opt_view(value)),
{
    assert(structs_view(after) =~= structs_view(before).insert(key, opt_view(value)));
}

impl Dtype {
    pub const BITS_OF_BYTE: usize = 8;

    pub const SIZE_OF_BYTE: usize = 1;

    // The target is a 64-bit architecture.
    pub const SIZE_OF_POINTER: usize = 8;

    pub const SIZE_OF_CHAR: usize = 1;

    pub const SIZE_OF_SHORT: usize = 2;

    pub const SIZE_OF_INT: usize = 4;

    pub const SIZE_OF_LONG: usize = 8;

    pub const SIZE_OF_LONGLONG: usize = 8;

    pub const SIZE_OF_FLOAT: usize = 4;

    pub const SIZE_OF_DOUBLE: usize = 8;

    /// `void`.
    pub fn unit() -> (r: Self)
        ensures
            r@ == (SpecDtype::Unit { is_const: false }),
    {
        Dtype::Unit { is_const: false }
    }

    /// A signed integer type of `width` bits.
    pub fn integer(width: usize) -> (r: Self)
        ensures
            r@ == spec_int(width),
    {
        Dtype::Int { width, is_signed: true, is_const: false }
    }

    /// A floating-point type of `width` bits.
    pub fn float(width: usize) -> (r: Self)
        ensures
            r@ == spec_float(width),
    {
        Dtype::Float { width, is_const: false }
    }

    /// `_Bool`: an unsigned integer of one bit.
    pub fn bool_type() -> (r: Self)
        ensures
            r@ == (SpecDtype::Int { width: 1, is_signed: false, is_const: false }),
    {
        Dtype::Int { width: 1, is_signed: false, is_const: false }
    }

    /// `char`.
    pub fn char_type() -> (r: Self)
        ensures
            r@ == spec_int(8),
    {
        Self::integer(Self::SIZE_OF_CHAR * Self::BITS_OF_BYTE)
    }

    /// `short`.
    pub fn short_type() -> (r: Self)
        ensures
            r@ == spec_int(16),
    {
        Self::integer(Self::SIZE_OF_SHORT * Self::BITS_OF_BYTE)
    }

    /// `int`, the default data type.
    pub fn int_type() -> (r: Self)
        ensures
            r@ == spec_int(32),
    {
        Self::integer(Self::SIZE_OF_INT * Self::BITS_OF_BYTE)
    }

    /// `long`.
    pub fn long_type() -> (r: Self)
        ensures
            r@ == spec_int(64),
    {
        Self::integer(Self::SIZE_OF_LONG * Self::BITS_OF_BYTE)
    }

    /// `long long`.
    pub fn longlong_type() -> (r: Self)
        ensures
            r@ == spec_int(64),
    {
        Self::integer(Self::SIZE_OF_LONGLONG * Self::BITS_OF_BYTE)
    }

    /// `float`.
    pub fn float_type() -> (r: Self)
        ensures
            r@ == spec_float(32),
    {
        Self::float(Self::SIZE_OF_FLOAT * Self::BITS_OF_BYTE)
    }

    /// `double`.
    pub fn double_type() -> (r: Self)
        ensures
            r@ == spec_float(64),
    {
        Self::float(Self::SIZE_OF_DOUBLE * Self::BITS_OF_BYTE)
    }

    /// A pointer to `inner`.
    pub fn pointer(inner: Dtype) -> (r: Self)
        ensures
            r@ == (SpecDtype::Pointer { inner: Box::new(inner@), is_const: false }),
    {
        Dtype::Pointer { inner: Box::new(inner), is_const: false }
    }

    /// Adds an array dimension of `size` to `base_dtype`, as its innermost dimension.
    ///
    /// The C declaration `int *a[2][3]` is parsed with the dimensions reversed, so the
    /// translation inserts `3` inside `[2 x int*]`, giving `[2 x [3 x int*]]`.
    pub fn array(base_dtype: Dtype, size: usize) -> (r: Self)
        requires
            !(spec_array_elem(base_dtype@) is Function),
        ensures
            r@ == spec_array(base_dtype@, size),
        decreases base_dtype,
    {
        match base_dtype {
            Dtype::Array { inner, size: old_size } => {
                let inner = Self::array(*inner, size);
                Dtype::Array { inner: Box::new(inner), size: old_size }
            },
            inner => Dtype::Array { inner: Box::new(inner), size },
        }
    }

    /// A struct type with the given name and fields, not `const` and not yet laid out.
    pub fn structure(name: Option<String>, fields: Option<Vec<Named<Self>>>) -> (r: Self)
        ensures
            r@ == (SpecDtype::Struct {
                name: name_view(name),
                fields: match fields {
                    Some(fs) => Some(fields_view(fs@)),
                    None => None,
                },
                is_const: false,
                size_align_offsets: None,
            }),
    {
        let r = Dtype::Struct { name, fields, is_const: false, size_align_offsets: None };
        proof {
            if r matches Dtype::Struct { fields: Some(_), .. } {
                lemma_struct_fields_view(r);
            }
        }
        r
    }

    /// A function type.
    pub fn function(ret: Dtype, params: Vec<Dtype>) -> (r: Self)
        ensures
            r@ == (SpecDtype::Function { ret: Box::new(ret@), params: dtypes_view(params@) }),
    {
        let r = Dtype::Function { ret: Box::new(ret), params };
        proof {
            lemma_function_params_view(r);
        }
        r
    }

    /// A reference to a type definition by name.
    pub fn typedef(name: String) -> (r: Self)
        ensures
            r@ == (SpecDtype::Typedef { name: name@, is_const: false }),
    {
        Dtype::Typedef { name, is_const: false }
    }

    /// Lays out a defined, named, not yet laid out struct type: each field at the first offset
    /// aligned for it, the alignment the largest of the fields', the size the end of the last
    /// field rounded up to the alignment. A struct without fields has size 0 and alignment 1.
    ///
    /// Fails on the first field whose size cannot be computed (a struct name without entry).
    #[verifier::spinoff_prover]
    pub fn fill_size_align_offsets_of_struct(self, structs: &StringMap<Option<Dtype>>) -> (r: Result<
        Self,
        DtypeError,
    >)
        requires
            structs.wf(),
            self@ matches SpecDtype::Struct {
                name: Some(_),
                fields: Some(fs),
                is_const: false,
                size_align_offsets: None,
            } && struct_layout_ok(fs, structs_view(*structs)),
        ensures
            self@ matches SpecDtype::Struct { name, fields: Some(fs), .. } && match spec_fields_size_align(
                fs,
                structs_view(*structs),
            ) {
                Err(n) => r matches Err(e) && e.message() == unknown_struct_msg(n),
                Ok(sas) => r matches Ok(d) && d@ matches SpecDtype::Struct {
                    name: n2,
                    fields: f2,
                    is_const: c2,
                    size_align_offsets: Some((so, al, os)),
                } && n2 == name && f2 == Some(fs) && !c2 && so == spec_struct_layout(sas).0 && al
                    == spec_struct_layout(sas).1 && usizes_ints(os) == spec_struct_layout(sas).2,
            },
    {
        let ghost sv = structs_view(*structs);
        proof {
            lemma_struct_fields_view(self);
        }
        match self {
            Dtype::Struct { name, fields, is_const, size_align_offsets } => {
                let fields = fields.unwrap();
                let ghost vfs = fields_view(fields@);
                if fields.len() == 0 {
                    let r = Dtype::Struct {
                        name,
                        fields: Some(fields),
                        is_const,
                        size_align_offsets: Some((0, 1, Vec::new())),
                    };
                    proof {
                        lemma_struct_fields_view(r);
                        assert(usizes_ints(Seq::<usize>::empty()) =~= Seq::<int>::empty());
                    }
                    return Ok(r);
                }
                // Sizes and alignments of the fields.

                let mut sas: Vec<(usize, usize)> = Vec::new();
                let mut i: usize = 0;
                assert(vfs.take(0) =~= Seq::<(Option<Seq<char>>, SpecDtype)>::empty());
                assert(sa_ints(sas@) =~= Seq::<(int, int)>::empty());
                while i < fields.len()
                    invariant
                        structs.wf(),
                        sv == structs_view(*structs),
                        vfs == fields_view(fields@),
                        self@ matches SpecDtype::Struct { fields: Some(fs), .. } && fs == vfs,
                        struct_layout_ok(vfs, sv),
                        i <= fields@.len(),
                        spec_fields_size_align(vfs.take(i as int), sv) == Ok::<
                            Seq<(int, int)>,
                            Seq<char>,
                        >(sa_ints(sas@)),
                    decreases fields@.len() - i,
                {
                    assert(vfs[i as int].1 == fields@[i as int].inner@);
                    match fields[i].inner.size_align_of(structs) {
                        Ok(sa) => {
                            assert(vfs.take(i + 1).drop_last() =~= vfs.take(i as int));
                            assert(vfs.take(i + 1).last() == vfs[i as int]);
                            let ghost prev = sas@;
                            sas.push(sa);
                            assert(sa_ints(sas@) =~= sa_ints(prev).push(
                                (sa.0 as int, sa.1 as int),
                            ));
                        },
                        Err(e) => {
                            proof {
                                assert(vfs.take(i + 1).drop_last() =~= vfs.take(i as int));
                                assert(vfs.take(i + 1).last() == vfs[i as int]);
                                lemma_fields_size_align_prefix_err(vfs, sv, i + 1);
                            }
                            return Err(e);
                        },
                    }
                    i = i + 1;
                }
                let ghost si = sa_ints(sas@);
                proof {
                    assert(vfs.take(fields@.len() as int) =~= vfs);
                    lemma_fields_size_align_len(vfs, sv);
                }
                // The alignment of the struct.

                let mut align_of: usize = 0;
                let mut j: usize = 0;
                while j < sas.len()
                    invariant
                        si == sa_ints(sas@),
                        j <= sas@.len(),
                        align_of == spec_max_align(si.take(j as int)),
                    decreases sas@.len() - j,
                {
                    assert(si.take(j + 1).drop_last() =~= si.take(j as int));
                    if sas[j].1 > align_of {
                        align_of = sas[j].1;
                    }
                    j = j + 1;
                }
                assert(si.take(sas@.len() as int) =~= si);
                proof {
                    lemma_max_align_pos(si);
                }
                // The offset of each field.

                let mut offsets: Vec<usize> = Vec::new();
                let mut offset: usize = 0;
                let mut k: usize = 0;
                while k < sas.len()
                    invariant
                        si == sa_ints(sas@),
                        k <= sas@.len(),
                        forall|x: int| 0 <= x < si.len() ==> #[trigger] si[x].1 > 0,
                        spec_field_layout_fits(si),
                        offset == spec_field_layout(si.take(k as int)).0,
                        usizes_ints(offsets@) == spec_field_layout(si.take(k as int)).1,
                    decreases sas@.len() - k,
                {
                    let (size_of_dtype, align_of_dtype) = sas[k];
                    proof {
                        let t = si.take(k + 1);
                        assert(t.drop_last() =~= si.take(k as int));
                        assert(t.last() == si[k as int]);
                        lemma_field_layout_fits_prefix(si, k + 1);
                        assert forall|x: int| 0 <= x < t.len() implies #[trigger] t[x].1 > 0 && t[x].0
                            >= 0 by {
                            assert(t[x] == si[x]);
                        }
                        lemma_field_layout_mono(t);
                    }
                    let pad = if (offset % align_of_dtype) != 0 {
                        align_of_dtype - (offset % align_of_dtype)
                    } else {
                        0
                    };
                    offset = offset + pad;
                    let ghost prev = offsets@;
                    offsets.push(offset);
                    offset = offset + size_of_dtype;
                    assert(usizes_ints(offsets@) =~= usizes_ints(prev).push(
                        (offset - size_of_dtype) as int,
                    ));
                    k = k + 1;
                }
                assert(si.take(sas@.len() as int) =~= si);
                let size_of = ((offset - 1) / align_of + 1) * align_of;
                let r = Dtype::Struct {
                    name,
                    fields: Some(fields),
                    is_const,
                    size_align_offsets: Some((size_of, align_of, offsets)),
                };
                proof {
                    lemma_struct_fields_view(r);
                    assert(spec_fields_size_align(vfs, sv) == Ok::<Seq<(int, int)>, Seq<char>>(si));
                    assert(spec_struct_layout(si).0 == size_of);
                    assert(spec_struct_layout(si).1 == align_of);
                    assert(usizes_ints(offsets@) == spec_struct_layout(si).2);
                }
                Ok(r)
            },
            _ => Err(DtypeError::Misc { message: String::new() }),
        }
    }

    /// A copy of `self`.
    #[verifier::loop_isolation(false)]
    pub fn duplicate(&self) -> (r: Self)
        ensures
            r@ == self@,
        decreases self,
    {
        match self {
            Dtype::Unit { is_const } => Dtype::Unit { is_const: *is_const },
            Dtype::Int { width, is_signed, is_const } => Dtype::Int {
                width: *width,
                is_signed: *is_signed,
                is_const: *is_const,
            },
            Dtype::Float { width, is_const } => Dtype::Float { width: *width, is_const: *is_const },
            Dtype::Pointer { inner, is_const } => Dtype::Pointer {
                inner: Box::new(inner.duplicate()),
                is_const: *is_const,
            },
            Dtype::Array { inner, size } => Dtype::Array {
                inner: Box::new(inner.duplicate()),
                size: *size,
            },
            Dtype::Struct { name, fields, is_const, size_align_offsets } => {
                let new_fields = match fields {
                    Some(fs) => {
                        let mut out: Vec<Named<Dtype>> = Vec::new();
                        assert(fields_view(out@) =~= seq![]);
                        let mut i: usize = 0;
                        while i < fs.len()
                            invariant
                                i <= fs@.len(),
                                out@.len() == i,
                                forall|j: int| 0 <= j < i ==> field_view(#[trigger] out@[j]) == field_view(fs@[j]),
                            decreases fs@.len() - i,
                        {
                            proof {
                                assert(decreases_to!(*self => *fields));
                                assert(decreases_to!(*fields => *fs));
                                assert(decreases_to!(*fs => fs@));
                                assert(decreases_to!(fs@ => fs@[i as int]));
                                assert(decreases_to!(fs@[i as int] => fs@[i as int].inner));
                            }
                            let d = fs[i].inner.duplicate();
                            out.push(Named::new(clone_name(&fs[i].name), d));
                            i = i + 1;
                        }
                        assert(fields_view(out@) =~= fields_view(fs@));
                        Some(out)
                    },
                    None => None,
                };
                let new_sao = match size_align_offsets {
                    Some((s, a, o)) => Some((*s, *a, clone_usizes(o))),
                    None => None,
                };
                let r = Dtype::Struct {
                    name: clone_name(name),
                    fields: new_fields,
                    is_const: *is_const,
                    size_align_offsets: new_sao,
                };
                proof {
                    if fields is Some {
                        lemma_struct_fields_view(r);
                        lemma_struct_fields_view(*self);
                    }
                }
                r
            },
            Dtype::Function { ret, params } => {
                let mut out: Vec<Dtype> = Vec::new();
                assert(dtypes_view(out@) =~= seq![]);
                let mut i: usize = 0;
                while i < params.len()
                    invariant
                        i <= params@.len(),
                        out@.len() == i,
                        forall|j: int| 0 <= j < i ==> (#[trigger] out@[j])@ == params@[j]@,
                    decreases params@.len() - i,
                {
                    proof {
                        assert(decreases_to!(*self => *params));
                        assert(decreases_to!(*params => params@));
                        assert(decreases_to!(params@ => params@[i as int]));
                    }
                    out.push(params[i].duplicate());
                    i = i + 1;
                }
                assert(dtypes_view(out@) =~= dtypes_view(params@));
                let r = Dtype::Function { ret: Box::new(ret.duplicate()), params: out };
                proof {
                    lemma_function_params_view(r);
                    lemma_function_params_view(*self);
                }
                r
            },
            Dtype::Typedef { name, is_const } => Dtype::Typedef {
                name: name.clone(),
                is_const: *is_const,
            },
        }
    }

    /// Copies of a list of data types.
    pub fn duplicate_list(ds: &Vec<Dtype>) -> (r: Vec<Dtype>)
        ensures
            dtypes_view(r@) == dtypes_view(ds@),
    {
        let mut out: Vec<Dtype> = Vec::new();
        let mut i: usize = 0;
        while i < ds.len()
            invariant
                i <= ds@.len(),
                out@.len() == i,
                forall|j: int| 0 <= j < i ==> (#[trigger] out@[j])@ == ds@[j]@,
            decreases ds@.len() - i,
        {
            out.push(ds[i].duplicate());
            i = i + 1;
        }
        assert(dtypes_view(out@) =~= dtypes_view(ds@));
        out
    }

    /// The innermost element type of nested arrays, or `self` if it is no array.
    pub fn array_elem(&self) -> (r: &Self)
        ensures
            r@ == spec_array_elem(self@),
        decreases self,
    {
        match self {
            Dtype::Array { inner, .. } => inner.array_elem(),
            _ => self,
        }
    }

    fn is_immutable_with_fuel(&self, structs: &StringMap<Option<Dtype>>, Ghost(fuel): Ghost<nat>) -> (r: bool)
        requires
            structs.wf(),
            spec_immutable(self@, structs_view(*structs), fuel) is Some,
        ensures
            r == spec_immutable(self@, structs_view(*structs), fuel)->Some_0,
        decreases fuel,
    {
        let ghost sv = structs_view(*structs);
        match self {
            Dtype::Unit { is_const } => *is_const,
            Dtype::Int { is_const, .. } => *is_const,
            Dtype::Float { is_const, .. } => *is_const,
            Dtype::Pointer { is_const, .. } => *is_const,
            Dtype::Array { .. } => true,
            Dtype::Function { .. } => true,
            Dtype::Typedef { .. } => true,
            Dtype::Struct { name, is_const, .. } => {
                let name = name.as_ref().unwrap();
                let struct_type = structs.get(name).unwrap().as_ref().unwrap();
                let fields = struct_type.get_struct_fields().unwrap().as_ref().unwrap();
                let ghost vfs = fields_view(fields@);
                if *is_const {
                    return true;
                }
                let mut i: usize = 0;
                while i < fields.len()
                    invariant
                        structs.wf(),
                        sv == structs_view(*structs),
                        fuel > 0,
                        vfs == fields_view(fields@),
                        i <= fields@.len(),
                        spec_fields_immutable(vfs, sv, (fuel - 1) as nat, 0) is Some,
                        spec_immutable(self@, sv, fuel) == spec_fields_immutable(vfs, sv, (fuel - 1) as nat, 0),
                        spec_fields_immutable(vfs, sv, (fuel - 1) as nat, 0) == spec_fields_immutable(
                            vfs,
                            sv,
                            (fuel - 1) as nat,
                            i as int,
                        ),
                    decreases fields@.len() - i,
                {
                    let elem = fields[i].inner.array_elem();
                    assert(vfs[i as int].1 == fields@[i as int].inner@);
                    if elem.is_immutable_with_fuel(structs, Ghost((fuel - 1) as nat)) {
                        return true;
                    }
                    i = i + 1;
                }
                false
            },
        }
    }

    /// Whether a value of this type cannot be assigned to: scalars follow their `const`,
    /// arrays and functions are immutable, and a struct (looked up by name in `structs`) is
    /// immutable if it is `const` or one of its fields is, a field of array type counting by
    /// its element type.
    pub fn is_immutable(&self, structs: &StringMap<Option<Dtype>>) -> (r: bool)
        requires
            structs.wf(),
            immutable_defined(self@, structs_view(*structs)),
        ensures
            r == spec_is_immutable(self@, structs_view(*structs)),
    {
        let ghost fuel = choose|fuel: nat| #[trigger] spec_immutable(self@, structs_view(*structs), fuel) is Some;
        self.is_immutable_with_fuel(structs, Ghost(fuel))
    }

    /// Whether a field of this type makes its struct immutable: the element type of an array
    /// decides, any other type decides by itself.
    pub fn is_immutable_for_array_struct_field_inner(&self, structs: &StringMap<Option<Dtype>>) -> (r: bool)
        requires
            structs.wf(),
            immutable_defined(spec_array_elem(self@), structs_view(*structs)),
        ensures
            r == spec_is_immutable(spec_array_elem(self@), structs_view(*structs)),
    {
        self.array_elem().is_immutable(structs)
    }

    #[verifier::loop_isolation(false)]
    fn resolve_typedefs_ref(&self, typedefs: &StringMap<Dtype>, structs: &StringMap<Option<Dtype>>) -> (r: Result<
        Dtype,
        DtypeError,
    >)
        requires
            typedefs.wf(),
            spec_resolve_typedefs(self@, typedefs_view(*typedefs)) is Some,
        ensures
            match spec_resolve_typedefs(self@, typedefs_view(*typedefs)) {
                Some(Ok(d)) => r matches Ok(x) && x@ == d,
                Some(Err(m)) => r matches Err(e) && e.message() == m,
                None => false,
            },
        decreases self,
    {
        let ghost tv = typedefs_view(*typedefs);
        match self {
            Dtype::Unit { .. } | Dtype::Int { .. } | Dtype::Float { .. } => Ok(self.duplicate()),
            Dtype::Pointer { inner, is_const } => {
                let inner = match inner.resolve_typedefs_ref(typedefs, structs) {
                    Ok(i) => i,
                    Err(e) => return Err(e),
                };
                Ok(Self::pointer(inner).set_const(*is_const))
            },
            Dtype::Array { inner, size } => {
                let inner = match inner.resolve_typedefs_ref(typedefs, structs) {
                    Ok(i) => i,
                    Err(e) => return Err(e),
                };
                Ok(Dtype::Array { inner: Box::new(inner), size: *size })
            },
            Dtype::Struct { name, fields, is_const, .. } => {
                match fields {
                    Some(fs) => {
                        proof {
                            lemma_struct_fields_view(*self);
                        }
                        let ghost vfs = fields_view(fs@);
                        let mut out: Vec<Named<Dtype>> = Vec::new();
                        let mut i: usize = 0;
                        assert(vfs.take(0) =~= Seq::<(Option<Seq<char>>, SpecDtype)>::empty());
                        assert(fields_view(out@) =~= Seq::<(Option<Seq<char>>, SpecDtype)>::empty());
                        while i < fs.len()
                            invariant
                                i <= fs@.len(),
                                spec_resolve_fields(vfs.take(i as int), tv) == Some(
                                    Ok::<Seq<(Option<Seq<char>>, SpecDtype)>, Seq<char>>(fields_view(out@)),
                                ),
                            decreases fs@.len() - i,
                        {
                            proof {
                                assert(decreases_to!(*self => *fields));
                                assert(decreases_to!(*fields => *fs));
                                assert(decreases_to!(*fs => fs@));
                                assert(decreases_to!(fs@ => fs@[i as int]));
                                assert(decreases_to!(fs@[i as int] => fs@[i as int].inner));
                                let t = vfs.take(i + 1);
                                assert(t.subrange(0, i as int) =~= vfs.take(i as int));
                                assert(t[i as int] == vfs[i as int]);
                                assert(vfs[i as int].1 == fs@[i as int].inner@);
                                if spec_resolve_typedefs(vfs[i as int].1, tv) is None {
                                    lemma_resolve_fields_prefix(vfs, tv, i + 1);
                                }
                            }
                            let ghost prev = out@;
                            match fs[i].inner.resolve_typedefs_ref(typedefs, structs) {
                                Ok(d) => {
                                    out.push(Named::new(clone_name(&fs[i].name), d));
                                    assert(fields_view(out@) =~= fields_view(prev).push(
                                        (vfs[i as int].0, d@),
                                    ));
                                },
                                Err(e) => {
                                    proof {
                                        lemma_resolve_fields_prefix(vfs, tv, i + 1);
                                    }
                                    return Err(e);
                                },
                            }
                            i = i + 1;
                        }
                        assert(vfs.take(fs@.len() as int) =~= vfs);
                        Ok(Self::structure(clone_name(name), Some(out)).set_const(*is_const))
                    },
                    None => Ok(self.duplicate()),
                }
            },
            Dtype::Function { ret, params } => {
                proof {
                    lemma_function_params_view(*self);
                }
                let ret = match ret.resolve_typedefs_ref(typedefs, structs) {
                    Ok(r) => r,
                    Err(e) => return Err(e),
                };
                let ghost vps = dtypes_view(params@);
                let mut out: Vec<Dtype> = Vec::new();
                let mut i: usize = 0;
                assert(vps.take(0) =~= Seq::<SpecDtype>::empty());
                assert(dtypes_view(out@) =~= Seq::<SpecDtype>::empty());
                while i < params.len()
                    invariant
                        i <= params@.len(),
                        spec_resolve_list(vps.take(i as int), tv) == Some(
                            Ok::<Seq<SpecDtype>, Seq<char>>(dtypes_view(out@)),
                        ),
                    decreases params@.len() - i,
                {
                    proof {
                        assert(decreases_to!(*self => *params));
                        assert(decreases_to!(*params => params@));
                        assert(decreases_to!(params@ => params@[i as int]));
                        let t = vps.take(i + 1);
                        assert(t.subrange(0, i as int) =~= vps.take(i as int));
                        assert(t[i as int] == vps[i as int]);
                        assert(vps[i as int] == params@[i as int]@);
                        if spec_resolve_typedefs(vps[i as int], tv) is None {
                            lemma_resolve_list_prefix(vps, tv, i + 1);
                        }
                    }
                    let ghost prev = out@;
                    match params[i].resolve_typedefs_ref(typedefs, structs) {
                        Ok(d) => {
                            out.push(d);
                            assert(dtypes_view(out@) =~= dtypes_view(prev).push(d@));
                        },
                        Err(e) => {
                            proof {
                                lemma_resolve_list_prefix(vps, tv, i + 1);
                            }
                            return Err(e);
                        },
                    }
                    i = i + 1;
                }
                assert(vps.take(params@.len() as int) =~= vps);
                Ok(Self::function(ret, out))
            },
            Dtype::Typedef { name, is_const } => {
                match typedefs.get(name) {
                    Some(dtype) => {
                        let dtype = dtype.duplicate();
                        let is_const = dtype.is_const() || *is_const;
                        Ok(dtype.set_const(is_const))
                    },
                    None => {
                        let mut message = String::from_str("unknown type name `");
                        message.append(name.as_str());
                        message.append("`");
                        proof {
                            reveal_strlit("unknown type name `");
                            reveal_strlit("`");
                        }
                        Err(DtypeError::Misc { message })
                    },
                }
            },
        }
    }

    /// Replaces every type name in the type by its definition in `typedefs`; a name without
    /// definition is an error. A struct that has fields loses its layout in the result.
    pub fn resolve_typedefs(self, typedefs: &StringMap<Dtype>, structs: &StringMap<Option<Dtype>>) -> (r: Result<
        Self,
        DtypeError,
    >)
        requires
            typedefs.wf(),
            spec_resolve_typedefs(self@, typedefs_view(*typedefs)) is Some,
        ensures
            match spec_resolve_typedefs(self@, typedefs_view(*typedefs)) {
                Some(Ok(d)) => r matches Ok(x) && x@ == d,
                Some(Err(m)) => r matches Err(e) && e.message() == m,
                None => false,
            },
    {
        self.resolve_typedefs_ref(typedefs, structs)
    }

    /// The width of an integer type.
    pub fn get_int_width(&self) -> (r: Option<usize>)
        ensures
            r == (match self@ {
                SpecDtype::Int { width, .. } => Some(width),
                _ => None,
            }),
    {
        match self {
            Dtype::Int { width, .. } => Some(*width),
            _ => None,
        }
    }

    /// The width of a floating-point type.
    pub fn get_float_width(&self) -> (r: Option<usize>)
        ensures
            r == (match self@ {
                SpecDtype::Float { width, .. } => Some(width),
                _ => None,
            }),
    {
        match self {
            Dtype::Float { width, .. } => Some(*width),
            _ => None,
        }
    }

    /// The type a pointer type points to.
    pub fn get_pointer_inner(&self) -> (r: Option<&Self>)
        ensures
            r is Some == self@ is Pointer,
            r matches Some(inner) ==> self@ matches SpecDtype::Pointer { inner: i, .. } && inner@ == *i,
    {
        match self {
            Dtype::Pointer { inner, .. } => Some(inner),
            _ => None,
        }
    }

    /// The element type of an array type.
    pub fn get_array_inner(&self) -> (r: Option<&Self>)
        ensures
            r is Some == self@ is Array,
            r matches Some(inner) ==> self@ matches SpecDtype::Array { inner: i, .. } && inner@ == *i,
    {
        match self {
            Dtype::Array { inner, .. } => Some(inner),
            _ => None,
        }
    }

    /// The name of a struct type.
    pub fn get_struct_name(&self) -> (r: Option<&Option<String>>)
        ensures
            r is Some == self@ is Struct,
            r matches Some(n) ==> self@ matches SpecDtype::Struct { name, .. } && name_view(*n) == name,
    {
        match self {
            Dtype::Struct { name, .. } => Some(name),
            _ => None,
        }
    }

    /// The fields of a struct type.
    pub fn get_struct_fields(&self) -> (r: Option<&Option<Vec<Named<Self>>>>)
        ensures
            r is Some == self@ is Struct,
            r matches Some(fs) ==> self@ matches SpecDtype::Struct { fields, .. } && fields == (
            match *fs {
                Some(v) => Some(fields_view(v@)),
                None => None,
            }),
    {
        proof {
            if self matches Dtype::Struct { fields: Some(_), .. } {
                lemma_struct_fields_view(*self);
            }
        }
        match self {
            Dtype::Struct { fields, .. } => Some(fields),
            _ => None,
        }
    }

    /// The size, alignment and field offsets of a struct type, where it has been laid out.
    pub fn get_struct_size_align_offsets(&self) -> (r: Option<&Option<(usize, usize, Vec<usize>)>>)
        ensures
            r is Some == self@ is Struct,
            r matches Some(sao) ==> self@ matches SpecDtype::Struct { size_align_offsets, .. }
                && size_align_offsets == (match *sao {
                Some((s, a, o)) => Some((s, a, o@)),
                None => None,
            }),
    {
        match self {
            Dtype::Struct { size_align_offsets, .. } => Some(size_align_offsets),
            _ => None,
        }
    }

    /// The return type and parameter types of a function type.
    pub fn get_function_inner(&self) -> (r: Option<(&Self, &Vec<Self>)>)
        ensures
            r is Some == self@ is Function,
            r matches Some((ret, params)) ==> self@ matches SpecDtype::Function { ret: sr, params: sp }
                && ret@ == *sr && dtypes_view(params@) == sp,
    {
        proof {
            if self is Function {
                lemma_function_params_view(*self);
            }
        }
        match self {
            Dtype::Function { ret, params } => Some((ret, params)),
            _ => None,
        }
    }

    /// Whether a value of this type is a scalar: an integer, a float or a pointer.
    pub fn is_scalar(&self) -> (r: bool)
        requires
            !(self@ is Unit),
        ensures
            r == (self@ is Int || self@ is Float || self@ is Pointer),
    {
        match self {
            Dtype::Int { .. } => true,
            Dtype::Float { .. } => true,
            Dtype::Pointer { .. } => true,
            _ => false,
        }
    }

    /// Whether an integer type is signed.
    pub fn is_int_signed(&self) -> (r: bool)
        requires
            self@ is Int,
        ensures
            self@ matches SpecDtype::Int { is_signed, .. } && r == is_signed,
    {
        match self {
            Dtype::Int { is_signed, .. } => *is_signed,
            _ => false,
        }
    }

    /// Whether the type is `const`; arrays and functions always are.
    pub fn is_const(&self) -> (r: bool)
        ensures
            r == spec_is_const(self@),
    {
        match self {
            Dtype::Unit { is_const } => *is_const,
            Dtype::Int { is_const, .. } => *is_const,
            Dtype::Float { is_const, .. } => *is_const,
            Dtype::Pointer { is_const, .. } => *is_const,
            Dtype::Array { .. } => true,
            Dtype::Struct { is_const, .. } => *is_const,
            Dtype::Function { .. } => true,
            Dtype::Typedef { is_const, .. } => *is_const,
        }
    }

    /// Sets the outermost `const`; arrays and functions are returned unchanged.
    pub fn set_const(self, is_const: bool) -> (r: Self)
        ensures
            r@ == spec_set_const(self@, is_const),
    {
        match self {
            Dtype::Unit { .. } => Dtype::Unit { is_const },
            Dtype::Int { width, is_signed, .. } => Dtype::Int { width, is_signed, is_const },
            Dtype::Float { width, .. } => Dtype::Float { width, is_const },
            Dtype::Pointer { inner, .. } => Dtype::Pointer { inner, is_const },
            Dtype::Array { inner, size } => Dtype::Array { inner, size },
            Dtype::Struct { name, fields, size_align_offsets, .. } => {
                let r = Dtype::Struct { name, fields, is_const, size_align_offsets };
                proof {
                    if r matches Dtype::Struct { fields: Some(_), .. } {
                        lemma_struct_fields_view(r);
                        lemma_struct_fields_view(self);
                    }
                }
                r
            },
            Dtype::Function { ret, params } => {
                let r = Dtype::Function { ret, params };
                proof {
                    lemma_function_params_view(r);
                    lemma_function_params_view(self);
                }
                r
            },
            Dtype::Typedef { name, .. } => Dtype::Typedef { name, is_const },
        }
    }

    /// Sets the signedness of an integer type.
    pub fn set_signed(self, is_signed: bool) -> (r: Self)
        requires
            self@ is Int,
        ensures
            self@ matches SpecDtype::Int { width, is_const, .. } && r@ == (SpecDtype::Int {
                width,
                is_signed,
                is_const,
            }),
    {
        match self {
            Dtype::Int { width, is_const, .. } => Dtype::Int { width, is_signed, is_const },
            other => other,
        }
    }

    /// The size and alignment in bytes of the type.
    ///
    /// A struct type is looked up by name in `structs`; a name that has no entry is an error.
    pub fn size_align_of(&self, structs: &StringMap<Option<Dtype>>) -> (r: Result<
        (usize, usize),
        DtypeError,
    >)
        requires
            structs.wf(),
            size_align_ok(self@, structs_view(*structs)),
        ensures
            match spec_size_align(self@, structs_view(*structs)) {
                Ok((s, a)) => r matches Ok((rs, ra)) && rs == s && ra == a,
                Err(n) => r matches Err(e) && e.message() == unknown_struct_msg(n),
            },
        decreases self,
    {
        match self {
            Dtype::Unit { .. } => Ok((0, 1)),
            Dtype::Int { width, .. } => {
                assert(Self::BITS_OF_BYTE == 8);
                let size_of = (*width + Self::BITS_OF_BYTE - 1) / Self::BITS_OF_BYTE;
                Ok((size_of, size_of))
            },
            Dtype::Float { width, .. } => {
                assert(Self::BITS_OF_BYTE == 8);
                let size_of = (*width + Self::BITS_OF_BYTE - 1) / Self::BITS_OF_BYTE;
                Ok((size_of, size_of))
            },
            Dtype::Pointer { .. } => Ok((Self::SIZE_OF_POINTER, Self::SIZE_OF_POINTER)),
            Dtype::Array { inner, size } => {
                let (size_of_inner, align_of_inner) = match inner.size_align_of(structs) {
                    Ok(sa) => sa,
                    Err(e) => return Err(e),
                };
                let m = if size_of_inner >= align_of_inner {
                    size_of_inner
                } else {
                    align_of_inner
                };
                Ok((*size * m, align_of_inner))
            },
            Dtype::Struct { name, .. } => {
                let name = name.as_ref().unwrap();
                match structs.get(name) {
                    None => {
                        let mut message = String::from_str("unknown struct name `");
                        message.append(name.as_str());
                        message.append("`");
                        proof {
                            reveal_strlit("unknown struct name `");
                            reveal_strlit("`");
                        }
                        Err(DtypeError::Misc { message })
                    },
                    Some(struct_type) => {
                        let struct_type = struct_type.as_ref().unwrap();
                        let sao = struct_type.get_struct_size_align_offsets().unwrap();
                        let (size_of, align_of, _) = sao.as_ref().unwrap();
                        Ok((*size_of, *align_of))
                    },
                }
            },
            Dtype::Function { .. } => Ok((0, 1)),
            Dtype::Typedef { .. } => Ok((0, 1)),
        }
    }
}

/// A laid-out struct as `fill_size_align_offsets_of_struct` returns it is the definition that
/// `spec_filled_struct` describes.
proof fn lemma_filled_struct(d: SpecDtype, nm: Seq<char>, fs: Seq<(Option<Seq<char>>, SpecDtype)>, sas: Seq<(int, int)>)
    requires
        d matches SpecDtype::Struct {
            name: n2,
            fields: f2,
            is_const: c2,
            size_align_offsets: Some((so, al, os)),
        } && n2 == Some(nm) && f2 == Some(fs) && !c2 && so == spec_struct_layout(sas).0 && al
            == spec_struct_layout(sas).1 && usizes_ints(os) == spec_struct_layout(sas).2,
    ensures
        d == spec_filled_struct(nm, fs, sas),
{
    if let SpecDtype::Struct { size_align_offsets: Some((so, al, os)), .. } = d {
        let l = spec_struct_layout(sas);
        assert(os.len() == usizes_ints(os).len());
        assert forall|i: int| 0 <= i < os.len() implies os[i] == ints_usizes(l.2)[i] by {
            assert(usizes_ints(os)[i] == os[i] as int);
        }
        assert(os =~= ints_usizes(l.2));
    }
}

/// The name of a struct type that is declared only, without fields.
fn declared_struct_name(d: &Dtype) -> (r: Option<String>)
    ensures
        r matches Some(n) ==> d@ matches SpecDtype::Struct { name: Some(m), fields: None, .. } && m == n@,
        r is None ==> !(d@ matches SpecDtype::Struct { name: Some(_), fields: None, .. }),
{
    match d {
        Dtype::Struct { name: Some(n), fields: None, .. } => Some(n.clone()),
        _ => None,
    }
}

impl Dtype {
    /// Collects the struct definitions of the type into `structs`, innermost first, and replaces
    /// each defined struct by a reference to it by name. An anonymous struct is named `%t<n>`,
    /// `n` taken from `tempid_counter`, which then counts up.
    ///
    /// A pointer to a struct that is only declared registers the name, without definition. A
    /// struct that is only declared must have a definition already; a struct defined twice is
    /// an error.
    #[verifier::loop_isolation(false)]
    #[verifier::spinoff_prover]
    #[verifier::rlimit(80)]
    pub fn resolve_structs(self, structs: &mut StringMap<Option<Dtype>>, tempid_counter: &mut usize) -> (r:
        Result<Self, DtypeError>)
        requires
            old(structs).wf(),
            spec_resolve_structs(self@, structs_view(*old(structs)), *old(tempid_counter) as nat) is Some,
        ensures
            final(structs).wf(),
            spec_resolve_structs(self@, structs_view(*old(structs)), *old(tempid_counter) as nat) matches Some(
                (res, st, c),
            ) && structs_view(*final(structs)) == st && *final(tempid_counter) as nat == c && match r {
                Ok(d) => res == Ok::<SpecDtype, Seq<char>>(d@),
                Err(e) => res == Err::<SpecDtype, Seq<char>>(e.message()),
            },
        decreases self@,
    {
        let ghost d0 = self@;
        let ghost st0 = structs_view(*structs);
        let ghost c0 = *tempid_counter as nat;
        proof {
            if self is Function {
                lemma_function_params_view(self);
            }
        }
        match self {
            Dtype::Unit { is_const } => Ok(Dtype::Unit { is_const }),
            Dtype::Int { width, is_signed, is_const } => Ok(Dtype::Int { width, is_signed, is_const }),
            Dtype::Float { width, is_const } => Ok(Dtype::Float { width, is_const }),
            Dtype::Pointer { inner, is_const } => {
                let declared_only = declared_struct_name(&inner);
                if let Some(n) = declared_only {
                    if !structs.contains_key(&n) {
                        let ghost before = *structs;
                        let _ = structs.insert(n, None);
                        proof {
                            lemma_structs_view_insert(before, *structs, n@, None);
                        }
                    }
                    return Ok(Dtype::Pointer { inner, is_const });
                }
                proof {
                    assert(decreases_to!(d0 => (*inner)@));
                }
                match (*inner).resolve_structs(structs, tempid_counter) {
                    Ok(ri) => Ok(Dtype::pointer(ri).set_const(is_const)),
                    Err(e) => Err(e),
                }
            },
            Dtype::Array { inner, size } => {
                match (*inner).resolve_structs(structs, tempid_counter) {
                    Ok(ri) => Ok(Dtype::Array { inner: Box::new(ri), size }),
                    Err(e) => Err(e),
                }
            },
            Dtype::Struct { name, fields, is_const, size_align_offsets } => {
                match fields {
                    Some(fs) => {
                        let ghost vfs = fields_view(fs@);
                        proof {
                            lemma_struct_fields_view(Dtype::Struct { name, fields: Some(fs), is_const, size_align_offsets });
                            assert(d0 matches SpecDtype::Struct { fields: Some(x), .. } && x == vfs);
                            assert(vfs.take(0) =~= Seq::<(Option<Seq<char>>, SpecDtype)>::empty());
                        }
                        let mut out: Vec<Named<Dtype>> = Vec::new();
                        assert(fields_view(out@) =~= seq![]);
                        let mut i: usize = 0;
                        while i < fs.len()
                            invariant
                                i <= fs@.len(),
                                vfs == fields_view(fs@),
                                structs.wf(),
                                spec_resolve_struct_fields(vfs.take(i as int), st0, c0) == Some(
                                    (
                                        Ok::<Seq<(Option<Seq<char>>, SpecDtype)>, Seq<char>>(fields_view(out@)),
                                        structs_view(*structs),
                                        *tempid_counter as nat,
                                    ),
                                ),
                            decreases fs@.len() - i,
                        {
                            let ghost st_i = structs_view(*structs);
                            let ghost c_i = *tempid_counter as nat;
                            proof {
                                assert(vfs.take(i + 1).subrange(0, i as int) =~= vfs.take(i as int));
                                assert(vfs.take(i + 1)[i as int] == vfs[i as int]);
                                assert(vfs[i as int] == field_view(fs@[i as int]));
                                assert(decreases_to!(d0 => vfs));
                                assert(decreases_to!(vfs => vfs[i as int]));
                                assert(decreases_to!(vfs[i as int] => vfs[i as int].1));
                                if !(spec_resolve_struct_fields(vfs.take(i + 1), st0, c0) matches Some(
                                    (Ok(_), _, _),
                                )) {
                                    lemma_resolve_struct_fields_prefix(vfs, st0, c0, i + 1);
                                }
                            }
                            let d = fs[i].inner.duplicate();
                            let ghost out_before = out@;
                            match d.resolve_structs(structs, tempid_counter) {
                                Ok(r) => {
                                    let ghost rv = r@;
                                    out.push(Named::new(clone_name(&fs[i].name), r));
                                    proof {
                                        assert(out@.drop_last() =~= out_before);
                                        assert(fields_view(out@) =~= fields_view(out_before).push(
                                            (vfs[i as int].0, rv),
                                        ));
                                        assert(spec_resolve_structs(vfs[i as int].1, st_i, c_i) == Some(
                                            (
                                                Ok::<SpecDtype, Seq<char>>(rv),
                                                structs_view(*structs),
                                                *tempid_counter as nat,
                                            ),
                                        ));
                                    }
                                },
                                Err(e) => {
                                    proof {
                                        lemma_resolve_struct_fields_prefix(vfs, st0, c0, i + 1);
                                    }
                                    return Err(e);
                                },
                            }
                            i = i + 1;
                        }
                        proof {
                            assert(vfs.take(i as int) =~= vfs);
                        }
                        let ghost rfs = fields_view(out@);
                        let ghost st2 = structs_view(*structs);
                        let ghost c2 = *tempid_counter as nat;
                        let nm: String = match name {
                            Some(n) => n,
                            None => {
                                let t = *tempid_counter;
                                *tempid_counter = t + 1;
                                let mut s = String::from_str("%t");
                                push_decimal(&mut s, t as u128);
                                s
                            },
                        };
                        let resolved = Dtype::structure(Some(nm.clone()), Some(out));
                        let filled = match resolved.fill_size_align_offsets_of_struct(structs) {
                            Ok(f) => f,
                            Err(e) => return Err(e),
                        };
                        let ghost sas = spec_fields_size_align(rfs, st2)->Ok_0;
                        proof {
                            lemma_filled_struct(filled@, nm@, rfs, sas);
                        }
                        let ghost before = *structs;
                        let prev = structs.insert(nm.clone(), Some(filled));
                        proof {
                            lemma_structs_view_insert(before, *structs, nm@, Some(filled));
                        }
                        if let Some(Some(_)) = prev {
                            let mut message = String::from_str("redefinition of ");
                            message.append(nm.as_str());
                            return Err(DtypeError::Misc { message });
                        }
                        Ok(Dtype::structure(Some(nm), None).set_const(is_const))
                    },
                    None => {
                        let n = name.unwrap();
                        match structs.get(&n) {
                            None => {
                                let mut message = String::from_str("unknown struct name `");
                                message.append(n.as_str());
                                message.append("`");
                                Err(DtypeError::Misc { message })
                            },
                            Some(None) => {
                                let mut message = String::from_str("variable has incomplete type 'struct ");
                                message.append(n.as_str());
                                message.append("'");
                                Err(DtypeError::Misc { message })
                            },
                            Some(Some(_)) => Ok(
                                Dtype::Struct { name: Some(n), fields: None, is_const, size_align_offsets },
                            ),
                        }
                    },
                }
            },
            Dtype::Function { ret, params } => {
                let r = match (*ret).resolve_structs(structs, tempid_counter) {
                    Ok(r) => r,
                    Err(e) => return Err(e),
                };
                let ghost vps = dtypes_view(params@);
                let ghost st1 = structs_view(*structs);
                let ghost c1 = *tempid_counter as nat;
                proof {
                    assert(vps.take(0) =~= Seq::<SpecDtype>::empty());
                }
                let mut out: Vec<Dtype> = Vec::new();
                assert(dtypes_view(out@) =~= seq![]);
                let mut i: usize = 0;
                while i < params.len()
                    invariant
                        i <= params@.len(),
                        vps == dtypes_view(params@),
                        structs.wf(),
                        spec_resolve_struct_list(vps.take(i as int), st1, c1) == Some(
                            (
                                Ok::<Seq<SpecDtype>, Seq<char>>(dtypes_view(out@)),
                                structs_view(*structs),
                                *tempid_counter as nat,
                            ),
                        ),
                    decreases params@.len() - i,
                {
                    proof {
                        assert(vps.take(i + 1).subrange(0, i as int) =~= vps.take(i as int));
                        assert(vps.take(i + 1)[i as int] == vps[i as int]);
                        assert(decreases_to!(d0 => vps));
                        assert(decreases_to!(vps => vps[i as int]));
                        if !(spec_resolve_struct_list(vps.take(i + 1), st1, c1) matches Some((Ok(_), _, _))) {
                            lemma_resolve_struct_list_prefix(vps, st1, c1, i + 1);
                        }
                    }
                    let d = params[i].duplicate();
                    let ghost out_before = out@;
                    let ghost st_i = structs_view(*structs);
                    let ghost c_i = *tempid_counter as nat;
                    match d.resolve_structs(structs, tempid_counter) {
                        Ok(x) => {
                            let ghost xv = x@;
                            out.push(x);
                            proof {
                                assert(out@.drop_last() =~= out_before);
                                assert(dtypes_view(out@) =~= dtypes_view(out_before).push(xv));
                                assert(spec_resolve_structs(vps[i as int], st_i, c_i) == Some(
                                    (
                                        Ok::<SpecDtype, Seq<char>>(xv),
                                        structs_view(*structs),
                                        *tempid_counter as nat,
                                    ),
                                ));
                            }
                        },
                        Err(e) => {
                            proof {
                                lemma_resolve_struct_list_prefix(vps, st1, c1, i + 1);
                            }
                            return Err(e);
                        },
                    }
                    i = i + 1;
                }
                proof {
                    assert(vps.take(i as int) =~= vps);
                }
                Ok(Dtype::function(r, out))
            },
            Dtype::Typedef { name, is_const } => Err(DtypeError::Misc { message: name }),
        }
    }
}

/// Whether two optional names are the same.
fn same_name(a: &Option<String>, b: &Option<String>) -> (r: bool)
    ensures
        r == (name_view(*a) == name_view(*b)),
{
    match (a, b) {
        (Some(x), Some(y)) => *x == *y,
        (None, None) => true,
        _ => false,
    }
}

/// Whether two lists of machine integers are the same.
fn same_usizes(a: &Vec<usize>, b: &Vec<usize>) -> (r: bool)
    ensures
        r == (a@ == b@),
{
    if a.len() != b.len() {
        return false;
    }
    let mut i: usize = 0;
    while i < a.len()
        invariant
            i <= a@.len(),
            a@.len() == b@.len(),
            forall|j: int| 0 <= j < i ==> a@[j] == b@[j],
        decreases a@.len() - i,
    {
        if a[i] != b[i] {
            return false;
        }
        i = i + 1;
    }
    assert(a@ =~= b@);
    true
}

impl Dtype {
    /// Whether two data types are the same, in every part (names, fields, layouts included).
    #[verifier::loop_isolation(false)]
    pub fn equals(&self, other: &Dtype) -> (r: bool)
        ensures
            r == (self@ == other@),
        decreases self,
    {
        match self {
            Dtype::Unit { is_const: a } => match other {
                Dtype::Unit { is_const: b } => *a == *b,
                _ => false,
            },
            Dtype::Int { width: w1, is_signed: s1, is_const: c1 } => match other {
                Dtype::Int { width: w2, is_signed: s2, is_const: c2 } => *w1 == *w2 && *s1 == *s2 && *c1
                    == *c2,
                _ => false,
            },
            Dtype::Float { width: w1, is_const: c1 } => match other {
                Dtype::Float { width: w2, is_const: c2 } => *w1 == *w2 && *c1 == *c2,
                _ => false,
            },
            Dtype::Pointer { inner: i1, is_const: c1 } => match other {
                Dtype::Pointer { inner: i2, is_const: c2 } => *c1 == *c2 && i1.equals(i2),
                _ => false,
            },
            Dtype::Array { inner: i1, size: z1 } => match other {
                Dtype::Array { inner: i2, size: z2 } => *z1 == *z2 && i1.equals(i2),
                _ => false,
            },
            Dtype::Struct { name: n1, fields: f1, is_const: c1, size_align_offsets: o1 } => match other {
                Dtype::Struct { name: n2, fields: f2, is_const: c2, size_align_offsets: o2 } => {
                    if !same_name(n1, n2) || *c1 != *c2 {
                        return false;
                    }
                    let same_layout = match (o1, o2) {
                        (Some((s1, a1, v1)), Some((s2, a2, v2))) => *s1 == *s2 && *a1 == *a2
                            && same_usizes(v1, v2),
                        (None, None) => true,
                        _ => false,
                    };
                    if !same_layout {
                        return false;
                    }
                    match f1 {
                        Some(fs1) => match f2 {
                            Some(fs2) => {
                                proof {
                                    lemma_struct_fields_view(*self);
                                    lemma_struct_fields_view(*other);
                                }
                                if fs1.len() != fs2.len() {
                                    assert(self@ != other@) by {
                                        if self@ == other@ {
                                            assert(fields_view(fs1@).len() == fields_view(fs2@).len());
                                        }
                                    }
                                    return false;
                                }
                                let mut i: usize = 0;
                                while i < fs1.len()
                                    invariant
                                        i <= fs1@.len(),
                                        fs1@.len() == fs2@.len(),
                                        forall|j: int|
                                            0 <= j < i ==> field_view(fs1@[j]) == field_view(fs2@[j]),
                                    decreases fs1@.len() - i,
                                {
                                    proof {
                                        assert(decreases_to!(*self => *f1));
                                        assert(decreases_to!(*f1 => *fs1));
                                        assert(decreases_to!(*fs1 => fs1@));
                                        assert(decreases_to!(fs1@ => fs1@[i as int]));
                                        assert(decreases_to!(fs1@[i as int] => fs1@[i as int].inner));
                                    }
                                    if !same_name(&fs1[i].name, &fs2[i].name) || !fs1[i].inner.equals(
                                        &fs2[i].inner,
                                    ) {
                                        assert(fields_view(fs1@)[i as int] != fields_view(fs2@)[i as int]);
                                        assert(self@ matches SpecDtype::Struct { fields: Some(x), .. } && x
                                            == fields_view(fs1@));
                                        assert(other@ matches SpecDtype::Struct { fields: Some(x), .. } && x
                                            == fields_view(fs2@));
                                        assert(self@ != other@) by {
                                            if self@ == other@ {
                                                assert(fields_view(fs1@) == fields_view(fs2@));
                                            }
                                        }
                                        return false;
                                    }
                                    i = i + 1;
                                }
                                assert(fields_view(fs1@) =~= fields_view(fs2@));
                                true
                            },
                            None => false,
                        },
                        None => match f2 {
                            None => true,
                            Some(_) => false,
                        },
                    }
                },
                _ => false,
            },
            Dtype::Function { ret: r1, params: p1 } => match other {
                Dtype::Function { ret: r2, params: p2 } => {
                    proof {
                        lemma_function_params_view(*self);
                        lemma_function_params_view(*other);
                    }
                    if !r1.equals(r2) {
                        return false;
                    }
                    if p1.len() != p2.len() {
                        assert(self@ != other@) by {
                            if self@ == other@ {
                                assert(dtypes_view(p1@).len() == dtypes_view(p2@).len());
                            }
                        }
                        return false;
                    }
                    let mut i: usize = 0;
                    while i < p1.len()
                        invariant
                            i <= p1@.len(),
                            p1@.len() == p2@.len(),
                            forall|j: int| 0 <= j < i ==> p1@[j]@ == p2@[j]@,
                        decreases p1@.len() - i,
                    {
                        proof {
                            assert(decreases_to!(*self => *p1));
                            assert(decreases_to!(*p1 => p1@));
                            assert(decreases_to!(p1@ => p1@[i as int]));
                        }
                        if !p1[i].equals(&p2[i]) {
                            assert(dtypes_view(p1@)[i as int] != dtypes_view(p2@)[i as int]);
                            assert(self@ matches SpecDtype::Function { params: x, .. } && x == dtypes_view(
                                p1@,
                            ));
                            assert(other@ matches SpecDtype::Function { params: x, .. } && x == dtypes_view(
                                p2@,
                            ));
                            assert(self@ != other@) by {
                                if self@ == other@ {
                                    assert(dtypes_view(p1@) == dtypes_view(p2@));
                                }
                            }
                            return false;
                        }
                        i = i + 1;
                    }
                    assert(dtypes_view(p1@) =~= dtypes_view(p2@));
                    true
                },
                _ => false,
            },
            Dtype::Typedef { name: n1, is_const: c1 } => match other {
                Dtype::Typedef { name: n2, is_const: c2 } => *c1 == *c2 && *n1 == *n2,
                _ => false,
            },
        }
    }
}

impl Default for Dtype {
    /// The type `int`.
    fn default() -> (r: Self)
        ensures
            r@ == spec_int(32),
    {
        Dtype::int_type()
    }
}

impl Clone for Dtype {
    fn clone(&self) -> (r: Self)
        ensures
            r@ == self@,
    {
        self.duplicate()
    }
}

impl PartialEq for Dtype {
    fn eq(&self, other: &Dtype) -> (r: bool) {
        self.equals(other)
    }
}

impl vstd::std_specs::cmp::PartialEqSpecImpl for Dtype {
    open spec fn obeys_eq_spec() -> bool {
        true
    }

    open spec fn eq_spec(&self, other: &Dtype) -> bool {
        self@ == other@
    }
}

/// `const ` for a `const` type, nothing otherwise.
pub open spec fn const_prefix(is_const: bool) -> Seq<char> {
    if is_const {
        "const "@
    } else {
        ""@
    }
}

/// A name, or `%anon` for none.
pub open spec fn name_or_anon(name: Option<Seq<char>>) -> Seq<char> {
    match name {
        Some(n) => n,
        None => "%anon"@,
    }
}

/// The textual form of a data type: `i32`, `const u8`, `f64`, `unit`, `i32*const`, `[4 x i8]`,
/// `struct P:<x:i32, y:i32>`, `[ret:unit params:(i32, u8)]`, or a type name.
pub open spec fn dtype_text(d: SpecDtype) -> Seq<char>
    decreases d,
{
    match d {
        SpecDtype::Unit { is_const } => const_prefix(is_const) + "unit"@,
        SpecDtype::Int { width, is_signed, is_const } => const_prefix(is_const) + (if is_signed {
            "i"@
        } else {
            "u"@
        }) + decimal(width as nat),
        SpecDtype::Float { width, is_const } => const_prefix(is_const) + "f"@ + decimal(width as nat),
        SpecDtype::Pointer { inner, is_const } => dtype_text(*inner) + "*"@ + (if is_const {
            "const"@
        } else {
            ""@
        }),
        SpecDtype::Array { inner, size } => "["@ + decimal(size as nat) + " x "@ + dtype_text(*inner)
            + "]"@,
        SpecDtype::Struct { name, fields, is_const, .. } => const_prefix(is_const) + "struct "@
            + name_or_anon(name) + match fields {
            Some(fs) => ":<"@ + fields_text(fs) + ">"@,
            None => ""@,
        },
        SpecDtype::Function { ret, params } => "[ret:"@ + dtype_text(*ret) + " params:("@ + dtypes_text(
            params,
        ) + ")]"@,
        SpecDtype::Typedef { name, is_const } => const_prefix(is_const) + name,
    }
}

/// Fields as `name:type`, `%anon` for a field without name, separated by `, `.
pub open spec fn fields_text(fs: Seq<(Option<Seq<char>>, SpecDtype)>) -> Seq<char>
    decreases fs,
{
    if fs.len() == 0 {
        ""@
    } else if fs.len() == 1 {
        name_or_anon(fs[0].0) + ":"@ + dtype_text(fs[0].1)
    } else {
        fields_text(fs.subrange(0, fs.len() - 1)) + ", "@ + name_or_anon(fs[fs.len() - 1].0) + ":"@
            + dtype_text(fs[fs.len() - 1].1)
    }
}

/// Types separated by `, `.
pub open spec fn dtypes_text(ds: Seq<SpecDtype>) -> Seq<char>
    decreases ds,
{
    if ds.len() == 0 {
        ""@
    } else if ds.len() == 1 {
        dtype_text(ds[0])
    } else {
        dtypes_text(ds.subrange(0, ds.len() - 1)) + ", "@ + dtype_text(ds[ds.len() - 1])
    }
}

fn const_prefix_str(is_const: bool) -> (r: &'static str)
    ensures
        r@ == const_prefix(is_const),
{
    if is_const {
        "const "
    } else {
        ""
    }
}

impl Dtype {
    /// Appends the textual form of the type to `out`.
    #[verifier::loop_isolation(false)]
    pub fn push_text(&self, out: &mut String)
        ensures
            final(out)@ == old(out)@ + dtype_text(self@),
        decreases self, 1nat,
    {
        proof {
            reveal_strlit("");
        }
        match self {
            Dtype::Unit { is_const } => {
                out.append(const_prefix_str(*is_const));
                out.append("unit");
            },
            Dtype::Int { width, is_signed, is_const } => {
                out.append(const_prefix_str(*is_const));
                if *is_signed {
                    out.append("i");
                } else {
                    out.append("u");
                }
                push_decimal(out, *width as u128);
            },
            Dtype::Float { width, is_const } => {
                out.append(const_prefix_str(*is_const));
                out.append("f");
                push_decimal(out, *width as u128);
            },
            Dtype::Pointer { inner, is_const } => {
                inner.push_text(out);
                out.append("*");
                if *is_const {
                    out.append("const");
                } else {
                    out.append("");
                }
            },
            Dtype::Array { inner, size } => {
                out.append("[");
                push_decimal(out, *size as u128);
                out.append(" x ");
                inner.push_text(out);
                out.append("]");
            },
            Dtype::Struct { .. } => self.push_struct_text(out),
            Dtype::Function { .. } => self.push_function_text(out),
            Dtype::Typedef { name, is_const } => {
                out.append(const_prefix_str(*is_const));
                out.append(name.as_str());
            },
        }
        assert(out@ =~= old(out)@ + dtype_text(self@));
    }

    fn push_struct_text(&self, out: &mut String)
        requires
            self is Struct,
        ensures
            final(out)@ == old(out)@ + dtype_text(self@),
        decreases self, 0nat,
    {
        proof {
            reveal_strlit("");
        }
        match self {
            Dtype::Struct { name, fields, is_const, .. } => {
                out.append(const_prefix_str(*is_const));
                out.append("struct ");
                match name {
                    Some(n) => out.append(n.as_str()),
                    None => out.append("%anon"),
                }
                match fields {
                    Some(fs) => {
                        proof {
                            lemma_struct_fields_view(*self);
                            assert(decreases_to!(*self => *fields));
                            assert(decreases_to!(*fields => *fs));
                        }
                        out.append(":<");
                        Self::push_fields_text(fs, out);
                        out.append(">");
                    },
                    None => {
                        out.append("");
                    },
                }
            },
            _ => {},
        }
        assert(out@ =~= old(out)@ + dtype_text(self@));
    }

    pub(crate) fn push_fields_text(fs: &Vec<Named<Dtype>>, out: &mut String)
        ensures
            final(out)@ == old(out)@ + fields_text(fields_view(fs@)),
        decreases fs, 0nat,
    {
        proof {
            reveal_strlit("");
        }
        let ghost vfs = fields_view(fs@);
        let ghost start = out@;
        let mut i: usize = 0;
        while i < fs.len()
            invariant
                i <= fs@.len(),
                vfs == fields_view(fs@),
                out@ == start + fields_text(vfs.subrange(0, i as int)),
            decreases fs@.len() - i,
        {
            proof {
                assert(decreases_to!(*fs => fs@));
                assert(decreases_to!(fs@ => fs@[i as int]));
                assert(decreases_to!(fs@[i as int] => fs@[i as int].inner));
                assert(vfs.subrange(0, i + 1).subrange(0, i as int) =~= vfs.subrange(0, i as int));
                reveal_strlit("");
            }
            if i > 0 {
                out.append(", ");
            }
            match &fs[i].name {
                Some(n) => out.append(n.as_str()),
                None => out.append("%anon"),
            }
            out.append(":");
            fs[i].inner.push_text(out);
            i = i + 1;
            assert(out@ =~= start + fields_text(vfs.subrange(0, i as int)));
        }
        assert(vfs.subrange(0, i as int) =~= vfs);
    }

    #[verifier::loop_isolation(false)]
    #[verifier::spinoff_prover]
    #[verifier::rlimit(40)]
    fn push_function_text(&self, out: &mut String)
        requires
            self is Function,
        ensures
            final(out)@ == old(out)@ + dtype_text(self@),
        decreases self, 0nat,
    {
        proof {
            reveal_strlit("");
        }
        match self {
            Dtype::Function { ret, params } => {
                proof {
                    lemma_function_params_view(*self);
                }
                let ghost vps = dtypes_view(params@);
                out.append("[ret:");
                ret.push_text(out);
                out.append(" params:(");
                let ghost start = out@;
                let mut i: usize = 0;
                while i < params.len()
                    invariant
                        i <= params@.len(),
                        vps == dtypes_view(params@),
                        out@ == start + dtypes_text(vps.subrange(0, i as int)),
                    decreases params@.len() - i,
                {
                    proof {
                        assert(decreases_to!(*self => *params));
                        assert(decreases_to!(*params => params@));
                        assert(decreases_to!(params@ => params@[i as int]));
                        assert(vps.subrange(0, i + 1).subrange(0, i as int) =~= vps.subrange(0, i as int));
                    }
                    if i > 0 {
                        out.append(", ");
                    }
                    params[i].push_text(out);
                    i = i + 1;
                    assert(out@ =~= start + dtypes_text(vps.subrange(0, i as int)));
                }
                assert(vps.subrange(0, i as int) =~= vps);
                out.append(")]");
            },
            _ => {},
        }
        assert(out@ =~= old(out)@ + dtype_text(self@));
    }

    /// The textual form of the type.
    pub fn to_string(&self) -> (r: String)
        ensures
            r@ == dtype_text(self@),
    {
        let mut s = String::new();
        self.push_text(&mut s);
        assert(s@ =~= dtype_text(self@));
        s
    }
}

} // verus!
