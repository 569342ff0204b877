//! Where the fields of struct types lie.
use vstd::prelude::*;

use crate::ir::dtype::{fields_view, structs_view};
use crate::ir::dtype_ast::SpecField;
use crate::ir::{Dtype, SpecDtype};
use crate::utils::StringMap;

verus! {

/// Where field `field` of struct type `d` lies: its offset in bytes and its type, from the
/// definition of the struct in `structs`. A field without a name (a nested struct) is searched
/// in turn, its own offset added. `Some(None)` where `d` is no struct type or has no such field;
/// `None` where the search panics (a struct type without name, or without definition, fields,
/// offsets, or with an offset that does not fit a machine word) or needs more than `fuel`
/// levels of nesting.
pub open spec fn spec_field_offset(
    d: SpecDtype,
    field: Seq<char>,
    structs: Map<Seq<char>, Option<SpecDtype>>,
    fuel: nat,
) -> Option<Option<(nat, SpecDtype)>>
    decreases fuel, 1nat, 0nat,
{
    match d {
        SpecDtype::Struct { name, .. } => match name {
            None => None,
            Some(n) => if structs.contains_key(n) {
                match structs[n] {
                    Some(SpecDtype::Struct { fields: Some(fs), size_align_offsets: Some((_, _, offsets)), .. }) => {
                        if fs.len() == offsets.len() {
                            spec_fields_offset(fs, offsets, 0, field, structs, fuel)
                        } else {
                            None
                        }
                    },
                    _ => None,
                }
            } else {
                None
            },
        },
        _ => Some(None),
    }
}

/// The search of `spec_field_offset` among the fields from the `i`-th on.
pub open spec fn spec_fields_offset(
    fs: Seq<SpecField>,
    offsets: Seq<usize>,
    i: nat,
    field: Seq<char>,
    structs: Map<Seq<char>, Option<SpecDtype>>,
    fuel: nat,
) -> Option<Option<(nat, SpecDtype)>>
    decreases fuel, 0nat, fs.len() - i,
{
    if i >= fs.len() {
        Some(None)
    } else {
        match fs[i as int].0 {
            Some(n) => if n == field {
                Some(Some((offsets[i as int] as nat, fs[i as int].1)))
            } else {
                spec_fields_offset(fs, offsets, i + 1, field, structs, fuel)
            },
            None => if fuel == 0 {
                None
            } else {
                match spec_field_offset(fs[i as int].1, field, structs, (fuel - 1) as nat) {
                    None => None,
                    Some(None) => spec_fields_offset(fs, offsets, i + 1, field, structs, fuel),
                    Some(Some((o, t))) => if offsets[i as int] + o <= usize::MAX {
                        Some(Some(((offsets[i as int] + o) as nat, t)))
                    } else {
                        None
                    },
                }
            },
        }
    }
}

/// A search that ends within some fuel ends the same way with more.
pub proof fn lemma_field_offset_fuel(
    d: SpecDtype,
    field: Seq<char>,
    structs: Map<Seq<char>, Option<SpecDtype>>,
    fuel: nat,
    more: nat,
)
    requires
        spec_field_offset(d, field, structs, fuel) is Some,
        fuel <= more,
    ensures
        spec_field_offset(d, field, structs, more) == spec_field_offset(d, field, structs, fuel),
    decreases fuel, 1nat, 0nat,
{
    if let SpecDtype::Struct { name: Some(n), .. } = d {
        if let Some(SpecDtype::Struct { fields: Some(fs), size_align_offsets: Some((_, _, offsets)), .. }) = structs[n] {
            if fs.len() == offsets.len() {
                lemma_fields_offset_fuel(fs, offsets, 0, field, structs, fuel, more);
            }
        }
    }
}

/// `lemma_field_offset_fuel` for the search among fields.
pub proof fn lemma_fields_offset_fuel(
    fs: Seq<SpecField>,
    offsets: Seq<usize>,
    i: nat,
    field: Seq<char>,
    structs: Map<Seq<char>, Option<SpecDtype>>,
    fuel: nat,
    more: nat,
)
    requires
        spec_fields_offset(fs, offsets, i, field, structs, fuel) is Some,
        fuel <= more,
    ensures
        spec_fields_offset(fs, offsets, i, field, structs, more) == spec_fields_offset(
            fs,
            offsets,
            i,
            field,
            structs,
            fuel,
        ),
    decreases fuel, 0nat, fs.len() - i,
{
    if i < fs.len() {
        match fs[i as int].0 {
            Some(n) => {
                if n != field {
                    lemma_fields_offset_fuel(fs, offsets, i + 1, field, structs, fuel, more);
                }
            },
            None => {
                lemma_field_offset_fuel(fs[i as int].1, field, structs, (fuel - 1) as nat, (more - 1) as nat);
                if spec_field_offset(fs[i as int].1, field, structs, (fuel - 1) as nat) == Some(
                    None::<(nat, SpecDtype)>,
                ) {
                    lemma_fields_offset_fuel(fs, offsets, i + 1, field, structs, fuel, more);
                }
            },
        }
    }
}

/// Whether the search for `field` in `d` ends without panic at some depth of nesting.
pub open spec fn field_offset_ok(d: SpecDtype, field: Seq<char>, structs: Map<Seq<char>, Option<SpecDtype>>) -> bool {
    exists|fuel: nat| #[trigger] spec_field_offset(d, field, structs, fuel) is Some
}

impl Dtype {
    /// `get_offset_struct_field` with the nesting bounded by `fuel`.
    fn offset_struct_field_within(&self, field_name: &String, structs: &StringMap<Option<Dtype>>, Ghost(fuel): Ghost<nat>) -> (r:
        Option<(usize, Dtype)>)
        requires
            structs.wf(),
            spec_field_offset(self@, field_name@, structs_view(*structs), fuel) is Some,
        ensures
            match spec_field_offset(self@, field_name@, structs_view(*structs), fuel).unwrap() {
                Some((o, t)) => r matches Some((ro, rt)) && ro == o && rt@ == t,
                None => r is None,
            },
        decreases fuel,
    {
        let ghost sv = structs_view(*structs);
        let name = match self {
            Dtype::Struct { name, .. } => name,
            _ => {
                return None;
            },
        };
        let struct_name = name.as_ref().unwrap();
        let struct_type = structs.get(struct_name).unwrap().as_ref().unwrap();
        assert(sv[struct_name@] == Some(struct_type@));
        let fields = struct_type.get_struct_fields().unwrap().as_ref().unwrap();
        let (_, _, offsets) = struct_type.get_struct_size_align_offsets().unwrap().as_ref().unwrap();
        let ghost fs = fields_view(fields@);
        let mut i: usize = 0;
        while i < fields.len()
            invariant
                structs.wf(),
                sv == structs_view(*structs),
                i <= fields@.len(),
                fs == fields_view(fields@),
                fs.len() == offsets@.len(),
                spec_field_offset(self@, field_name@, sv, fuel) == spec_fields_offset(
                    fs,
                    offsets@,
                    i as nat,
                    field_name@,
                    sv,
                    fuel,
                ),
                spec_field_offset(self@, field_name@, sv, fuel) is Some,
            decreases fields@.len() - i,
        {
            let field = &fields[i];
            assert(fs[i as int] == (field.name_v(), field.inner@));
            match &field.name {
                Some(name) => {
                    assert(fs[i as int].0 == Some(name@));
                    if *name == *field_name {
                        assert(name@ == field_name@);
                        return Some((offsets[i], field.inner.duplicate()));
                    }
                    assert(name@ != field_name@);
                },
                None => {
                    let found = field.inner.offset_struct_field_within(field_name, structs, Ghost((fuel - 1) as nat));
                    if let Some((offset_inner, dtype)) = found {
                        return Some((offsets[i] + offset_inner, dtype));
                    }
                },
            }
            i = i + 1;
        }
        None
    }

    /// Where field `field_name` of a struct type lies: its offset in bytes and its type, looked
    /// up in the definition of the struct in `structs`; a field without a name (a nested struct)
    /// is searched in turn, its own offset added. `None` for a type that is no struct, or where
    /// there is no such field.
    pub fn get_offset_struct_field(&self, field_name: &str, structs: &StringMap<Option<Dtype>>) -> (r: Option<
        (usize, Dtype),
    >)
        requires
            structs.wf(),
            field_offset_ok(self@, field_name@, structs_view(*structs)),
        ensures
            forall|fuel: nat| #[trigger]
                spec_field_offset(self@, field_name@, structs_view(*structs), fuel) is Some ==> match spec_field_offset(
                    self@,
                    field_name@,
                    structs_view(*structs),
                    fuel,
                ).unwrap() {
                    Some((o, t)) => r matches Some((ro, rt)) && ro == o && rt@ == t,
                    None => r is None,
                },
    {
        let ghost fuel = choose|fuel: nat| #[trigger] spec_field_offset(self@, field_name@, structs_view(*structs), fuel) is Some;
        let name = String::from_str(field_name);
        let r = self.offset_struct_field_within(&name, structs, Ghost(fuel));
        proof {
            assert forall|f: nat| #[trigger]
                spec_field_offset(self@, field_name@, structs_view(*structs), f) is Some implies spec_field_offset(
                self@,
                field_name@,
                structs_view(*structs),
                f,
            ) == spec_field_offset(self@, field_name@, structs_view(*structs), fuel) by {
                if f <= fuel {
                    lemma_field_offset_fuel(self@, field_name@, structs_view(*structs), f, fuel);
                } else {
                    lemma_field_offset_fuel(self@, field_name@, structs_view(*structs), fuel, f);
                }
            }
        }
        r
    }
}

} // verus!
