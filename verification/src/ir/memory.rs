//! The memory of the interpreter of the intermediate representation: values as bytes, and
//! bytes read back as values.
use vstd::prelude::*;

use super::dtype::{size_align_ok, spec_size_align, structs_view};
use super::interp::{
    has_dtype, lemma_bytes_round_trip, le_bytes, le_value, normalized, padded16, value_dtype, Byte, InterpreterError,
    Value,
};
use super::trimmed;
use super::{Dtype, HasDtype, Named, SpecDtype};
use crate::utils::StringMap;

verus! {

broadcast use vstd::std_specs::vec::axiom_vec_decreases_to_view;

/// The size in bytes of `d` (0 where it has none).
pub open spec fn byte_size(d: SpecDtype, structs: Map<Seq<char>, Option<SpecDtype>>) -> nat {
    match spec_size_align(d, structs) {
        Ok((s, _)) => s as nat,
        Err(_) => 0,
    }
}

/// The padding after each element of an array of `d`: the alignment beyond the size, if any.
pub open spec fn padding(d: SpecDtype, structs: Map<Seq<char>, Option<SpecDtype>>) -> nat {
    match spec_size_align(d, structs) {
        Ok((s, a)) => if s >= a {
            0
        } else {
            (a - s) as nat
        },
        Err(_) => 0,
    }
}

/// `n` undefined bytes.
pub open spec fn undef_bytes(n: nat) -> Seq<Byte> {
    Seq::new(n, |i: int| Byte::Undef)
}

/// Known bytes.
pub open spec fn concrete_bytes(bs: Seq<u8>) -> Seq<Byte> {
    bs.map_values(|b: u8| Byte::Concrete(b))
}

/// The bytes of a pointer into block `bid` at `offset`.
pub open spec fn pointer_bytes(bid: Option<usize>, offset: isize) -> Seq<Byte> {
    Seq::new(8, |i: int| Byte::Pointer { bid, offset, index: i as usize })
}

/// `bs` with the `sz` bytes from `o` on replaced by `r`.
pub open spec fn seq_splice(bs: Seq<Byte>, o: int, sz: int, r: Seq<Byte>) -> Seq<Byte> {
    bs.take(o) + r + bs.skip(o + sz)
}

/// The bytes of a value: undefined bytes as many as its type's size for an undefined value;
/// none for unit; the little-endian bytes of an integer or of a double's bits; the bytes of a
/// pointer; the elements of an array one after the other, each followed by the padding of the
/// element type; the fields of a struct each written over undefined bytes of the struct's
/// size, at its offset, in order.
pub open spec fn value_bytes(v: Value, structs: Map<Seq<char>, Option<SpecDtype>>) -> Seq<Byte>
    decreases v,
{
    match v {
        Value::Undef { dtype } => undef_bytes(byte_size(dtype@, structs)),
        Value::Unit => seq![],
        Value::Int { value, .. } => concrete_bytes(le_bytes(value as nat, byte_size(value_dtype(v), structs))),
        Value::Float { bits, .. } => concrete_bytes(le_bytes(bits as nat, byte_size(value_dtype(v), structs))),
        Value::Pointer { bid, offset, .. } => pointer_bytes(bid, offset),
        Value::Array { inner_dtype, values } => array_bytes(values@, padding(inner_dtype@, structs), structs),
        Value::Struct { name, fields } => if structs.contains_key(name@) {
            match structs[name@] {
                Some(SpecDtype::Struct { size_align_offsets: Some((size, _, offsets)), .. }) => fields_bytes(
                    undef_bytes(size as nat),
                    fields@,
                    offsets,
                    structs,
                ),
                _ => seq![],
            }
        } else {
            seq![]
        },
    }
}

/// The bytes of the elements of an array, each followed by `pad` undefined bytes.
pub open spec fn array_bytes(vs: Seq<Value>, pad: nat, structs: Map<Seq<char>, Option<SpecDtype>>) -> Seq<Byte>
    decreases vs,
{
    if vs.len() == 0 {
        seq![]
    } else {
        array_bytes(vs.drop_last(), pad, structs) + value_bytes(vs.last(), structs) + undef_bytes(pad)
    }
}

/// `base` with the bytes of each field written at its offset, in order; each replaces as many
/// bytes as its type's size.
pub open spec fn fields_bytes(
    base: Seq<Byte>,
    fs: Seq<Named<Value>>,
    offsets: Seq<usize>,
    structs: Map<Seq<char>, Option<SpecDtype>>,
) -> Seq<Byte>
    decreases fs,
{
    if fs.len() == 0 {
        base
    } else {
        seq_splice(
            fields_bytes(base, fs.drop_last(), offsets, structs),
            offsets[fs.len() - 1] as int,
            byte_size(value_dtype(fs.last().inner), structs) as int,
            value_bytes(fs.last().inner, structs),
        )
    }
}

/// The values that can be written without panic: the size of every type involved can be
/// computed; a float is a double; every element of an array has a type of known size; a
/// struct is defined in `structs` with its offsets, one for each field, and each field lies
/// within the bytes written so far.
pub open spec fn value_bytes_ok(v: Value, structs: Map<Seq<char>, Option<SpecDtype>>) -> bool
    decreases v,
{
    match v {
        Value::Undef { dtype } => size_align_ok(dtype@, structs) && spec_size_align(dtype@, structs) is Ok,
        Value::Unit => true,
        Value::Int { width, .. } => width + 8 <= usize::MAX,
        Value::Float { width, .. } => width + 8 <= usize::MAX && byte_size(value_dtype(v), structs) == 8,
        Value::Pointer { .. } => true,
        Value::Array { inner_dtype, values } => size_align_ok(inner_dtype@, structs) && spec_size_align(
            inner_dtype@,
            structs,
        ) is Ok && array_bytes_ok(
            values@,
            structs,
        ),
        Value::Struct { name, fields } => structs.contains_key(name@) && match structs[name@] {
            Some(SpecDtype::Struct { size_align_offsets: Some((size, _, offsets)), .. }) => fields@.len()
                == offsets.len() && fields_bytes_ok(undef_bytes(size as nat), fields@, offsets, structs),
            _ => false,
        },
    }
}

/// Every element can be written.
pub open spec fn array_bytes_ok(vs: Seq<Value>, structs: Map<Seq<char>, Option<SpecDtype>>) -> bool
    decreases vs,
{
    if vs.len() == 0 {
        true
    } else {
        array_bytes_ok(vs.drop_last(), structs) && value_bytes_ok(vs.last(), structs)
    }
}

/// Every field can be written, has a type of known size, and lies within the bytes written
/// before it.
pub open spec fn fields_bytes_ok(
    base: Seq<Byte>,
    fs: Seq<Named<Value>>,
    offsets: Seq<usize>,
    structs: Map<Seq<char>, Option<SpecDtype>>,
) -> bool
    decreases fs,
{
    if fs.len() == 0 {
        true
    } else {
        let f = fs.last().inner;
        &&& fields_bytes_ok(base, fs.drop_last(), offsets, structs)
        &&& value_bytes_ok(f, structs)
        &&& has_dtype(f)
        &&& size_align_ok(value_dtype(f), structs)
        &&& spec_size_align(value_dtype(f), structs) is Ok
        &&& offsets[fs.len() - 1] + byte_size(value_dtype(f), structs) <= fields_bytes(
            base,
            fs.drop_last(),
            offsets,
            structs,
        ).len()
    }
}


/// `n` undefined bytes.
fn undef_vec(n: usize) -> (r: Vec<Byte>)
    ensures
        r@ == undef_bytes(n as nat),
{
    let mut r: Vec<Byte> = Vec::new();
    let mut i: usize = 0;
    while i < n
        invariant
            i <= n,
            r@ == undef_bytes(i as nat),
        decreases n - i,
    {
        r.push(Byte::Undef);
        i = i + 1;
        assert(r@ =~= undef_bytes(i as nat));
    }
    r
}

/// Appends `src` to `out`.
fn extend(out: &mut Vec<Byte>, src: &Vec<Byte>)
    ensures
        final(out)@ == old(out)@ + src@,
{
    let mut i: usize = 0;
    while i < src.len()
        invariant
            i <= src@.len(),
            out@ == old(out)@ + src@.take(i as int),
        decreases src@.len() - i,
    {
        out.push(src[i]);
        i = i + 1;
        assert(out@ =~= old(out)@ + src@.take(i as int));
    }
    assert(src@.take(i as int) =~= src@);
}

/// `bs` with the `sz` bytes from `o` on replaced by `r`.
fn splice(bs: &Vec<Byte>, o: usize, sz: usize, r: &Vec<Byte>) -> (out: Vec<Byte>)
    requires
        o + sz <= bs@.len(),
    ensures
        out@ == seq_splice(bs@, o as int, sz as int, r@),
{
    let n = bs.len();
    assert(o + sz <= n);
    let end = o + sz;
    let mut out: Vec<Byte> = Vec::new();
    let mut i: usize = 0;
    while i < o
        invariant
            i <= o,
            o + sz <= bs@.len(),
            out@ == bs@.take(i as int),
        decreases o - i,
    {
        out.push(bs[i]);
        i = i + 1;
        assert(out@ =~= bs@.take(i as int));
    }
    extend(&mut out, r);
    let mut j: usize = end;
    while j < bs.len()
        invariant
            o + sz <= j <= bs@.len(),
            out@ == bs@.take(o as int) + r@ + bs@.subrange(o + sz, j as int),
        decreases bs@.len() - j,
    {
        out.push(bs[j]);
        j = j + 1;
        assert(out@ =~= bs@.take(o as int) + r@ + bs@.subrange(o + sz, j as int));
    }
    assert(bs@.subrange(o + sz, j as int) =~= bs@.skip(o + sz));
    out
}

impl Byte {
    /// The bytes of a value; see `value_bytes`.
    #[verifier::loop_isolation(false)]
    pub fn value_to_bytes(value: &Value, structs: &StringMap<Option<Dtype>>) -> (r: Vec<Byte>)
        requires
            structs.wf(),
            value_bytes_ok(*value, structs_view(*structs)),
        ensures
            r@ == value_bytes(*value, structs_view(*structs)),
        decreases value,
    {
        let ghost sv = structs_view(*structs);
        match value {
            Value::Undef { dtype } => {
                let (size, _) = dtype.size_align_of(structs).unwrap();
                undef_vec(size)
            },
            Value::Unit => Vec::new(),
            Value::Int { value: v, .. } => {
                let d = value.dtype();
                let (size, _) = d.size_align_of(structs).unwrap();
                let raw = Byte::u128_to_bytes(*v, size);
                let mut r: Vec<Byte> = Vec::new();
                let mut i: usize = 0;
                while i < raw.len()
                    invariant
                        i <= raw@.len(),
                        r@ == concrete_bytes(raw@.take(i as int)),
                    decreases raw@.len() - i,
                {
                    r.push(Byte::Concrete(raw[i]));
                    i = i + 1;
                    assert(r@ =~= concrete_bytes(raw@.take(i as int)));
                }
                assert(raw@.take(i as int) =~= raw@);
                r
            },
            Value::Float { bits, .. } => {
                let d = value.dtype();
                let (size, _) = d.size_align_of(structs).unwrap();
                let raw = Byte::u128_to_bytes(*bits as u128, size);
                let mut r: Vec<Byte> = Vec::new();
                let mut i: usize = 0;
                while i < raw.len()
                    invariant
                        i <= raw@.len(),
                        r@ == concrete_bytes(raw@.take(i as int)),
                    decreases raw@.len() - i,
                {
                    r.push(Byte::Concrete(raw[i]));
                    i = i + 1;
                    assert(r@ =~= concrete_bytes(raw@.take(i as int)));
                }
                assert(raw@.take(i as int) =~= raw@);
                r
            },
            Value::Pointer { bid, offset, .. } => {
                let mut r: Vec<Byte> = Vec::new();
                let mut i: usize = 0;
                while i < 8
                    invariant
                        i <= 8,
                        r@ == pointer_bytes(*bid, *offset).take(i as int),
                    decreases 8 - i,
                {
                    r.push(Byte::Pointer { bid: *bid, offset: *offset, index: i });
                    i = i + 1;
                    assert(r@ =~= pointer_bytes(*bid, *offset).take(i as int));
                }
                assert(pointer_bytes(*bid, *offset).take(8) =~= pointer_bytes(*bid, *offset));
                r
            },
            Value::Array { inner_dtype, values } => {
                let (inner_size, inner_align) = inner_dtype.size_align_of(structs).unwrap();
                let pad = if inner_size >= inner_align {
                    0
                } else {
                    inner_align - inner_size
                };
                let ghost vs = values@;
                let mut r: Vec<Byte> = Vec::new();
                let mut i: usize = 0;
                assert(vs.take(0) =~= seq![]);
                while i < values.len()
                    invariant
                        structs.wf(),
                        sv == structs_view(*structs),
                        vs == values@,
                        i <= vs.len(),
                        pad == padding(inner_dtype@, sv),
                        array_bytes_ok(vs, sv),
                        r@ == array_bytes(vs.take(i as int), pad as nat, sv),
                    decreases vs.len() - i,
                {
                    proof {
                        lemma_array_bytes_ok_at(vs, sv, i as int);
                        assert(decreases_to!(*value => *values));
                        assert(decreases_to!(*values => values@));
                        assert(decreases_to!(values@ => values@[i as int]));
                        assert(vs.take(i + 1).drop_last() =~= vs.take(i as int));
                    }
                    let b = Byte::value_to_bytes(&values[i], structs);
                    extend(&mut r, &b);
                    let u = undef_vec(pad);
                    extend(&mut r, &u);
                    i = i + 1;
                    assert(r@ =~= array_bytes(vs.take(i as int), pad as nat, sv));
                }
                assert(vs.take(i as int) =~= vs);
                r
            },
            Value::Struct { name, fields } => {
                let struct_type = structs.get(name).unwrap().as_ref().unwrap();
                let (size, _, offsets) = struct_type.get_struct_size_align_offsets().unwrap().as_ref().unwrap();
                let mut r = undef_vec(*size);
                let ghost base = r@;
                let ghost fs = fields@;
                let mut i: usize = 0;
                assert(fs.take(0) =~= seq![]);
                while i < fields.len()
                    invariant
                        structs.wf(),
                        sv == structs_view(*structs),
                        fs == fields@,
                        i <= fs.len(),
                        fs.len() == offsets@.len(),
                        fields_bytes_ok(base, fs, offsets@, sv),
                        r@ == fields_bytes(base, fs.take(i as int), offsets@, sv),
                    decreases fs.len() - i,
                {
                    proof {
                        lemma_fields_bytes_ok_at(base, fs, offsets@, sv, i as int);
                        assert(decreases_to!(*value => *fields));
                        assert(decreases_to!(*fields => fields@));
                        assert(decreases_to!(fields@ => fields@[i as int]));
                        assert(decreases_to!(fields@[i as int] => fields@[i as int].inner));
                        assert(fs.take(i + 1).drop_last() =~= fs.take(i as int));
                        assert(fs.take(i + 1).last() == fs[i as int]);
                    }
                    let f = &fields[i].inner;
                    let b = Byte::value_to_bytes(f, structs);
                    let d = f.dtype();
                    let (size_of_data, _) = d.size_align_of(structs).unwrap();
                    r = splice(&r, offsets[i], size_of_data, &b);
                    i = i + 1;
                }
                assert(fs.take(i as int) =~= fs);
                r
            },
        }
    }
}

/// The elements of a writable array are writable.
proof fn lemma_array_bytes_ok_at(vs: Seq<Value>, structs: Map<Seq<char>, Option<SpecDtype>>, i: int)
    requires
        array_bytes_ok(vs, structs),
        0 <= i < vs.len(),
    ensures
        value_bytes_ok(vs[i], structs),
        array_bytes_ok(vs.take(i + 1), structs),
    decreases vs.len(),
{
    if i < vs.len() - 1 {
        lemma_array_bytes_ok_at(vs.drop_last(), structs, i);
        assert(vs.drop_last()[i] == vs[i]);
        assert(vs.drop_last().take(i + 1) =~= vs.take(i + 1));
    } else {
        assert(vs.take(i + 1) =~= vs);
    }
}

/// The fields of a writable struct are writable and within the bytes written before them.
proof fn lemma_fields_bytes_ok_at(
    base: Seq<Byte>,
    fs: Seq<Named<Value>>,
    offsets: Seq<usize>,
    structs: Map<Seq<char>, Option<SpecDtype>>,
    i: int,
)
    requires
        fields_bytes_ok(base, fs, offsets, structs),
        0 <= i < fs.len(),
    ensures
        fields_bytes_ok(base, fs.take(i + 1), offsets, structs),
    decreases fs.len(),
{
    if i < fs.len() - 1 {
        lemma_fields_bytes_ok_at(base, fs.drop_last(), offsets, structs, i);
        assert(fs.drop_last().take(i + 1) =~= fs.take(i + 1));
    } else {
        assert(fs.take(i + 1) =~= fs);
    }
}

/// Whether each byte is known.
pub open spec fn all_concrete(bs: Seq<Byte>) -> bool {
    forall|k: int| 0 <= k < bs.len() ==> #[trigger] bs[k] is Concrete
}

/// The values of known bytes.
pub open spec fn concrete_values(bs: Seq<Byte>) -> Seq<u8> {
    bs.map_values(|b: Byte| b->Concrete_0)
}

/// The number whose little-endian bytes are `bs`, extended with the sign of its last byte where
/// `is_signed`.
pub open spec fn extended_value(bs: Seq<u8>, is_signed: bool) -> u128 {
    le_value(padded16(bs, if is_signed && bs.last() >= 128 { 255u8 } else { 0u8 })) as u128
}

/// Whether each byte is a byte of a pointer.
pub open spec fn all_pointer(bs: Seq<Byte>) -> bool {
    forall|k: int| 0 <= k < bs.len() ==> #[trigger] bs[k] is Pointer
}

/// Whether pointer bytes are the bytes of one pointer, in order.
pub open spec fn one_pointer(bs: Seq<Byte>) -> bool {
    forall|k: int|
        0 <= k < bs.len() ==> #[trigger] bs[k] == (Byte::Pointer {
            bid: bs[0]->Pointer_bid,
            offset: bs[0]->Pointer_offset,
            index: k as usize,
        })
}

/// Whether `v` is the value read from the bytes `bs` as type `d`, a struct's fields read with
/// at most `fuel` levels of nesting: unit reads nothing; an integer or a double reads as many
/// bytes as its size, undefined unless all are known; a pointer reads the bytes of one pointer,
/// and is otherwise undefined (of the pointer type where a byte is no pointer byte, of the
/// pointee type where they are bytes of different pointers); an array reads its elements one
/// after the other, each followed by the padding of the element type; a struct reads each
/// field at its offset within the struct's bytes.
pub open spec fn bytes_read(
    bs: Seq<Byte>,
    d: SpecDtype,
    structs: Map<Seq<char>, Option<SpecDtype>>,
    fuel: nat,
    v: Value,
) -> bool
    decreases fuel, d,
{
    match d {
        SpecDtype::Unit { .. } => v == Value::Unit,
        SpecDtype::Int { width, is_signed, .. } => {
            let b = bs.take(byte_size(d, structs) as int);
            if all_concrete(b) {
                v == (Value::Int { value: extended_value(concrete_values(b), is_signed), width, is_signed })
            } else {
                v matches Value::Undef { dtype } && dtype@ == d
            }
        },
        SpecDtype::Float { width, .. } => {
            let b = bs.take(byte_size(d, structs) as int);
            if all_concrete(b) {
                v == (Value::Float { bits: extended_value(concrete_values(b), false) as u64, width })
            } else {
                v matches Value::Undef { dtype } && dtype@ == d
            }
        },
        SpecDtype::Pointer { inner, .. } => {
            let b = bs.take(8);
            if !all_pointer(b) {
                v matches Value::Undef { dtype } && dtype@ == d
            } else if !one_pointer(b) {
                v matches Value::Undef { dtype } && dtype@ == *inner
            } else {
                v matches Value::Pointer { bid, offset, dtype } && bid == b[0]->Pointer_bid && offset
                    == b[0]->Pointer_offset && dtype@ == *inner
            }
        },
        SpecDtype::Array { inner, size } => {
            let stride = byte_size(*inner, structs) + padding(*inner, structs);
            v matches Value::Array { inner_dtype, values } && inner_dtype@ == *inner && values@.len() == size
                && forall|i: int|
                0 <= i < size ==> bytes_read(bs.skip(i * stride), *inner, structs, fuel, #[trigger] values@[i])
        },
        SpecDtype::Struct { name, .. } => fuel > 0 && name is Some && structs.contains_key(name.unwrap())
            && match structs[name.unwrap()] {
            Some(SpecDtype::Struct { fields: Some(fs), size_align_offsets: Some((size, _, offsets)), .. }) => {
                let b = bs.take(size as int);
                v matches Value::Struct { name: vn, fields: vfs } && vn@ == name.unwrap() && vfs@.len() == fs.len()
                    && forall|i: int|
                    0 <= i < fs.len() ==> vfs@[i].name_v() == fs[i].0 && bytes_read(
                        b.skip(offsets[i] as int),
                        fs[i].1,
                        structs,
                        (fuel - 1) as nat,
                        #[trigger] vfs@[i].inner,
                    )
            },
            _ => false,
        },
        _ => false,
    }
}

/// The reads that do not panic, with at most `fuel` levels of struct nesting: there are as
/// many bytes as the type's size; an integer's size is 1 to 16 bytes, a float is a double of
/// 1 to 16 bytes; sizes can be computed; a struct is named and defined in `structs` with its
/// fields and offsets, one for each field, each within the struct's bytes.
pub open spec fn bytes_read_ok(
    bs: Seq<Byte>,
    d: SpecDtype,
    structs: Map<Seq<char>, Option<SpecDtype>>,
    fuel: nat,
) -> bool
    decreases fuel, d,
{
    &&& size_align_ok(d, structs)
    &&& spec_size_align(d, structs) is Ok
    &&& byte_size(d, structs) <= bs.len()
    &&& match d {
        SpecDtype::Unit { .. } => true,
        SpecDtype::Int { .. } => 1 <= byte_size(d, structs) <= 16,
        SpecDtype::Float { .. } => 1 <= byte_size(d, structs) <= 16 && byte_size(d, structs) != 4,
        SpecDtype::Pointer { .. } => true,
        SpecDtype::Array { inner, size } => {
            let stride = byte_size(*inner, structs) + padding(*inner, structs);
            forall|i: int|
                #![trigger bs.skip(i * stride)]
                0 <= i < size ==> i * stride <= bs.len() && bytes_read_ok(
                    bs.skip(i * stride),
                    *inner,
                    structs,
                    fuel,
                )
        },
        SpecDtype::Struct { name, .. } => fuel > 0 && name is Some && structs.contains_key(name.unwrap())
            && match structs[name.unwrap()] {
            Some(SpecDtype::Struct { fields: Some(fs), size_align_offsets: Some((size, _, offsets)), .. }) => {
                let b = bs.take(size as int);
                fs.len() == offsets.len() && size <= bs.len() && forall|i: int|
                    #![trigger fs[i]]
                    0 <= i < fs.len() ==> offsets[i] <= size && bytes_read_ok(
                        b.skip(offsets[i] as int),
                        fs[i].1,
                        structs,
                        (fuel - 1) as nat,
                    )
            },
            _ => false,
        },
        _ => false,
    }
}

/// A nesting depth at which reading `d` from `bs` does not panic, where there is one.
pub open spec fn read_fuel(bs: Seq<Byte>, d: SpecDtype, structs: Map<Seq<char>, Option<SpecDtype>>) -> nat {
    choose|fuel: nat| bytes_read_ok(bs, d, structs, fuel)
}

/// `bs` from `start` on, as a vector.
fn copy_range(bs: &[Byte], start: usize, end: usize) -> (r: Vec<Byte>)
    requires
        start <= end <= bs@.len(),
    ensures
        r@ == bs@.subrange(start as int, end as int),
{
    let mut r: Vec<Byte> = Vec::new();
    let mut i: usize = start;
    while i < end
        invariant
            start <= i <= end <= bs@.len(),
            r@ == bs@.subrange(start as int, i as int),
        decreases end - i,
    {
        r.push(bs[i]);
        i = i + 1;
        assert(r@ =~= bs@.subrange(start as int, i as int));
    }
    r
}

impl Byte {
    /// The value read from `bs` from `start` on as type `dtype`, with at most `fuel` levels of
    /// struct nesting; see `bytes_read`.
    #[verifier::loop_isolation(false)]
    #[verifier::spinoff_prover]
    #[verifier::rlimit(40)]
    fn read_within(bs: &[Byte], start: usize, dtype: &Dtype, structs: &StringMap<Option<Dtype>>, Ghost(fuel): Ghost<nat>) -> (r: Value)
        requires
            structs.wf(),
            start <= bs@.len(),
            bytes_read_ok(bs@.skip(start as int), dtype@, structs_view(*structs), fuel),
        ensures
            bytes_read(bs@.skip(start as int), dtype@, structs_view(*structs), fuel, r),
        decreases fuel, dtype,
    {
        let ghost sv = structs_view(*structs);
        let ghost rest = bs@.skip(start as int);
        let n = bs.len();
        assert(rest.len() == n - start);
        match dtype {
            Dtype::Unit { .. } => Value::Unit,
            Dtype::Int { width, is_signed, .. } => {
                let (size, _) = dtype.size_align_of(structs).unwrap();
                let mut raw: Vec<u8> = Vec::new();
                let mut k: usize = 0;
                while k < size
                    invariant
                        k <= size,
                        size == byte_size(dtype@, sv),
                        size <= rest.len(),
                        rest == bs@.skip(start as int),
                        start <= bs@.len(),
                        raw@ == concrete_values(rest.take(k as int)),
                        all_concrete(rest.take(k as int)),
                    decreases size - k,
                {
                    match bs[start + k].get_concrete() {
                        Some(b) => {
                            raw.push(b);
                        },
                        None => {
                            assert(!(rest.take(size as int)[k as int] is Concrete));
                            return Value::Undef { dtype: dtype.duplicate() };
                        },
                    }
                    k = k + 1;
                    assert(raw@ =~= concrete_values(rest.take(k as int)));
                }
                assert(rest.take(k as int) =~= rest.take(size as int));
                let value = Byte::bytes_to_u128(raw.as_slice(), *is_signed);
                Value::Int { value, width: *width, is_signed: *is_signed }
            },
            Dtype::Float { width, .. } => {
                let (size, _) = dtype.size_align_of(structs).unwrap();
                let mut raw: Vec<u8> = Vec::new();
                let mut k: usize = 0;
                while k < size
                    invariant
                        k <= size,
                        size == byte_size(dtype@, sv),
                        size <= rest.len(),
                        rest == bs@.skip(start as int),
                        start <= bs@.len(),
                        raw@ == concrete_values(rest.take(k as int)),
                        all_concrete(rest.take(k as int)),
                    decreases size - k,
                {
                    match bs[start + k].get_concrete() {
                        Some(b) => {
                            raw.push(b);
                        },
                        None => {
                            assert(!(rest.take(size as int)[k as int] is Concrete));
                            return Value::Undef { dtype: dtype.duplicate() };
                        },
                    }
                    k = k + 1;
                    assert(raw@ =~= concrete_values(rest.take(k as int)));
                }
                assert(rest.take(k as int) =~= rest.take(size as int));
                let value = Byte::bytes_to_u128(raw.as_slice(), false);
                Value::Float { bits: #[verifier::truncate] (value as u64), width: *width }
            },
            Dtype::Pointer { inner, .. } => {
                let mut ptrs: Vec<(Option<usize>, isize, usize)> = Vec::new();
                let mut k: usize = 0;
                while k < 8
                    invariant
                        k <= 8,
                        8 <= rest.len(),
                        rest == bs@.skip(start as int),
                        start <= bs@.len(),
                        ptrs@.len() == k,
                        all_pointer(rest.take(k as int)),
                        forall|j: int| 0 <= j < k ==> #[trigger] rest[j] == (Byte::Pointer {
                            bid: ptrs@[j].0,
                            offset: ptrs@[j].1,
                            index: ptrs@[j].2,
                        }),
                    decreases 8 - k,
                {
                    match bs[start + k].get_pointer() {
                        Some(p) => {
                            ptrs.push(p);
                        },
                        None => {
                            assert(!(rest.take(8)[k as int] is Pointer));
                            return Value::Undef { dtype: dtype.duplicate() };
                        },
                    }
                    k = k + 1;
                    assert forall|j: int| 0 <= j < k implies #[trigger] rest.take(k as int)[j] is Pointer by {
                        assert(rest[j] == (Byte::Pointer { bid: ptrs@[j].0, offset: ptrs@[j].1, index: ptrs@[j].2 }));
                    }
                }
                let (bid, offset, _) = ptrs[0];
                let mut m: usize = 0;
                while m < 8
                    invariant
                        m <= 8,
                        ptrs@.len() == 8,
                        8 <= rest.len(),
                        bid == ptrs@[0].0,
                        offset == ptrs@[0].1,
                        forall|j: int| 0 <= j < 8 ==> #[trigger] rest[j] == (Byte::Pointer {
                            bid: ptrs@[j].0,
                            offset: ptrs@[j].1,
                            index: ptrs@[j].2,
                        }),
                        forall|j: int| 0 <= j < m ==> #[trigger] rest[j] == (Byte::Pointer { bid, offset, index: j as usize }),
                    decreases 8 - m,
                {
                    let (b, o, idx) = ptrs[m];
                    if !(b == bid && o == offset && idx == m) {
                        assert(rest.take(8)[m as int] != (Byte::Pointer { bid, offset, index: m }));
                        return Value::Undef { dtype: inner.duplicate() };
                    }
                    m = m + 1;
                }
                assert(all_pointer(rest.take(8)) && one_pointer(rest.take(8)));
                Value::Pointer { bid, offset, dtype: inner.duplicate() }
            },
            Dtype::Array { inner, size } => {
                let (inner_size, inner_align) = inner.size_align_of(structs).unwrap();
                let pad = if inner_size >= inner_align {
                    0
                } else {
                    inner_align - inner_size
                };
                let stride = inner_size + pad;
                let mut values: Vec<Value> = Vec::new();
                let mut i: usize = 0;
                while i < *size
                    invariant
                        i <= *size,
                        stride == byte_size(inner@, sv) + padding(inner@, sv),
                        rest == bs@.skip(start as int),
                        start <= bs@.len(),
                        values@.len() == i,
                        forall|j: int|
                            0 <= j < i ==> bytes_read(rest.skip(j * stride), inner@, sv, fuel, #[trigger] values@[j]),
                    decreases *size - i,
                {
                    proof {
                        assert(bytes_read_ok(
                            rest.skip(i as int * (byte_size(inner@, sv) + padding(inner@, sv))),
                            inner@,
                            sv,
                            fuel,
                        ));
                        assert(i * stride <= rest.len());
                        assert(rest.skip(i * stride) =~= bs@.skip(start + i * stride));
                    }
                    let at = start + i * stride;
                    let v = Byte::read_within(bs, at, inner, structs, Ghost(fuel));
                    values.push(v);
                    i = i + 1;
                }
                Value::Array { inner_dtype: inner.duplicate(), values }
            },
            Dtype::Struct { name, .. } => {
                let name = name.as_ref().unwrap();
                let struct_type = structs.get(name).unwrap().as_ref().unwrap();
                assert(sv[name@] == Some(struct_type@));
                let fields = struct_type.get_struct_fields().unwrap().as_ref().unwrap();
                let (size, _, offsets) = struct_type.get_struct_size_align_offsets().unwrap().as_ref().unwrap();
                let ghost fs = crate::ir::dtype::fields_view(fields@);
                assert(struct_type@ matches SpecDtype::Struct { fields: Some(f2), size_align_offsets: Some((s2, _, o2)), .. }
                    && f2 == fs && s2 == *size && o2 == offsets@);
                let b = copy_range(bs, start, start + *size);
                assert(b@ =~= rest.take(*size as int));
                let mut out: Vec<Named<Value>> = Vec::new();
                let mut i: usize = 0;
                while i < fields.len()
                    invariant
                        i <= fields@.len(),
                        fs == crate::ir::dtype::fields_view(fields@),
                        fs.len() == offsets@.len(),
                        b@ == rest.take(*size as int),
                        out@.len() == i,
                        forall|j: int|
                            0 <= j < i ==> (#[trigger] out@[j]).name_v() == fs[j].0 && bytes_read(
                                b@.skip(offsets@[j] as int),
                                fs[j].1,
                                sv,
                                (fuel - 1) as nat,
                                out@[j].inner,
                            ),
                    decreases fields@.len() - i,
                {
                    proof {
                        assert(bytes_read_ok(b@.skip(offsets@[i as int] as int), fs[i as int].1, sv, (fuel - 1) as nat));
                        assert(fs[i as int] == (fields@[i as int].name_v(), fields@[i as int].inner@));
                    }
                    let v = Byte::read_within(b.as_slice(), offsets[i], &fields[i].inner, structs, Ghost((fuel - 1) as nat));
                    let n = crate::ir::dtype::clone_name(&fields[i].name);
                    out.push(Named { name: n, inner: v });
                    i = i + 1;
                }
                Value::Struct { name: name.clone(), fields: out }
            },
            _ => Value::Unit,
        }
    }

    /// The value read from `bytes` as type `dtype`; see `bytes_read`. It is read with a nesting
    /// depth at which reading does not panic.
    pub fn bytes_to_value(bytes: &[Byte], dtype: &Dtype, structs: &StringMap<Option<Dtype>>) -> (r: Result<
        Value,
        InterpreterError,
    >)
        requires
            structs.wf(),
            exists|fuel: nat| bytes_read_ok(bytes@, dtype@, structs_view(*structs), fuel),
        ensures
            r matches Ok(v) && bytes_read(
                bytes@,
                dtype@,
                structs_view(*structs),
                read_fuel(bytes@, dtype@, structs_view(*structs)),
                v,
            ),
    {
        let ghost fuel = read_fuel(bytes@, dtype@, structs_view(*structs));
        assert(bytes@.skip(0) =~= bytes@);
        Ok(Byte::read_within(bytes, 0, dtype, structs, Ghost(fuel)))
    }
}

/// The values of known bytes are those bytes.
proof fn lemma_concrete_round_trip(bs: Seq<u8>)
    ensures
        all_concrete(concrete_bytes(bs)),
        concrete_values(concrete_bytes(bs)) == bs,
{
    assert(concrete_values(concrete_bytes(bs)) =~= bs);
}

/// Reading back the bytes written for an integer gives the integer, where it is in canonical
/// form for a width of whole bytes (at most 15 of them): its bits above the width cleared when
/// unsigned, sign-extended when signed.
pub proof fn lemma_int_bytes_round_trip(v: Value, structs: Map<Seq<char>, Option<SpecDtype>>, fuel: nat, r: Value)
    requires
        v matches Value::Int { value, width, is_signed } && 8 <= width <= 120 && width % 8 == 0 && value
            == normalized(trimmed(value as nat, width as nat) as u128, width, is_signed),
        bytes_read(value_bytes(v, structs), value_dtype(v), structs, fuel, r),
    ensures
        r == v,
{
    if let Value::Int { value, width, is_signed } = v {
        let size = byte_size(value_dtype(v), structs);
        assert(size == width / 8);
        let raw = le_bytes(value as nat, size);
        lemma_concrete_round_trip(raw);
        crate::ir::interp::lemma_le_value_of_bytes(value as nat, size);
        assert(concrete_bytes(raw).take(size as int) =~= concrete_bytes(raw));
        lemma_bytes_round_trip(value, size, is_signed);
        assert(8 * size == width);
    }
}

/// Reading back the bytes written for a pointer gives a pointer to the same block and offset,
/// with the same pointee type.
pub proof fn lemma_pointer_bytes_round_trip(v: Value, structs: Map<Seq<char>, Option<SpecDtype>>, fuel: nat, r: Value)
    requires
        v is Pointer,
        bytes_read(value_bytes(v, structs), value_dtype(v), structs, fuel, r),
    ensures
        v matches Value::Pointer { bid, offset, dtype } && r matches Value::Pointer { bid: b2, offset: o2, dtype: d2 }
            && b2 == bid && o2 == offset && d2@ == dtype@,
{
    if let Value::Pointer { bid, offset, dtype } = v {
        let b = pointer_bytes(bid, offset);
        assert(b.take(8) =~= b);
        assert(all_pointer(b));
        assert(one_pointer(b));
    }
}

/// `le_bytes(value, n)` has `n` bytes.
proof fn lemma_le_bytes_len(value: nat, n: nat)
    ensures
        le_bytes(value, n).len() == n,
    decreases n,
{
    if n > 0 {
        lemma_le_bytes_len(value / 256, (n - 1) as nat);
    }
}

/// The bytes written for an integer of 8 to 120 bits, a multiple of 8, or for a pointer, can
/// be read back as its type without panic, so `Byte::bytes_to_value` accepts them; and what is
/// read back is the integer, or a pointer to the same block and offset with the same pointee
/// type: reading undoes writing.
pub proof fn lemma_written_bytes_read_back(v: Value, structs: Map<Seq<char>, Option<SpecDtype>>)
    requires
        (v matches Value::Int { value, width, is_signed } && 8 <= width <= 120 && width % 8 == 0 && value
            == normalized(trimmed(value as nat, width as nat) as u128, width, is_signed)) || v is Pointer,
    ensures
        bytes_read_ok(value_bytes(v, structs), value_dtype(v), structs, 0),
        forall|fuel: nat, r: Value|
            #[trigger] bytes_read(value_bytes(v, structs), value_dtype(v), structs, fuel, r) ==> if v is Int {
                r == v
            } else {
                v matches Value::Pointer { bid, offset, dtype } && r matches Value::Pointer {
                    bid: b2,
                    offset: o2,
                    dtype: d2,
                } && b2 == bid && o2 == offset && d2@ == dtype@
            },
{
    if let Value::Int { value, width, .. } = v {
        let size = byte_size(value_dtype(v), structs);
        assert(size == width / 8);
        lemma_le_bytes_len(value as nat, size);
    }
    assert forall|fuel: nat, r: Value| #[trigger] bytes_read(value_bytes(v, structs), value_dtype(v), structs, fuel, r) implies (if v is Int {
        r == v
    } else {
        v matches Value::Pointer { bid, offset, dtype } && r matches Value::Pointer { bid: b2, offset: o2, dtype: d2 }
            && b2 == bid && o2 == offset && d2@ == dtype@
    }) by {
        if v is Int {
            lemma_int_bytes_round_trip(v, structs, fuel, r);
        } else {
            lemma_pointer_bytes_round_trip(v, structs, fuel, r);
        }
    }
}

/// Reading back the bytes written for a double gives the double.
pub proof fn lemma_double_bytes_round_trip(v: Value, structs: Map<Seq<char>, Option<SpecDtype>>, fuel: nat, r: Value)
    requires
        v matches Value::Float { width, .. } && width == 64,
        bytes_read(value_bytes(v, structs), value_dtype(v), structs, fuel, r),
    ensures
        r == v,
{
    if let Value::Float { bits, width } = v {
        let size = byte_size(value_dtype(v), structs);
        assert(size == 8);
        let raw = le_bytes(bits as nat, size);
        lemma_concrete_round_trip(raw);
        crate::ir::interp::lemma_le_value_of_bytes(bits as nat, size);
        assert(concrete_bytes(raw).take(size as int) =~= concrete_bytes(raw));
        lemma_bytes_round_trip(bits as u128, size, false);
        crate::ir::lemma_trim_idempotent(bits as nat, 64);
        vstd::arithmetic::power2::lemma2_to64();
        assert(bits as nat % pow2_64() == bits as nat) by {
            vstd::arithmetic::div_mod::lemma_small_mod(bits as nat, pow2_64());
        }
    }
}

/// 2 to the power 64.
spec fn pow2_64() -> nat {
    vstd::arithmetic::power2::pow2(64)
}

/// The memory: blocks by id, each the bytes of an allocation, or `None` once freed.
#[derive(Debug)]
pub struct Memory {
    inner: Vec<Option<Vec<Byte>>>,
}

/// The model of a memory block.
pub open spec fn block_view(b: Option<Vec<Byte>>) -> Option<Seq<Byte>> {
    match b {
        Some(v) => Some(v@),
        None => None,
    }
}

impl View for Memory {
    type V = Seq<Option<Seq<Byte>>>;

    closed spec fn view(&self) -> Seq<Option<Seq<Byte>>> {
        self.inner@.map_values(|b: Option<Vec<Byte>>| block_view(b))
    }
}

/// Whether `offset` brought to a machine word, plus `size`, does not overflow.
pub open spec fn range_fits(offset: isize, size: nat) -> bool {
    (offset as usize) + size <= usize::MAX
}

/// Whether the `size` bytes at `offset` lie within a block of `len` bytes.
pub open spec fn in_block(offset: isize, size: nat, len: nat) -> bool {
    0 <= offset && offset + size <= len
}

impl Memory {
    /// A memory without blocks.
    pub fn new() -> (r: Self)
        ensures
            r@ == Seq::<Option<Seq<Byte>>>::empty(),
    {
        let r = Memory { inner: Vec::new() };
        assert(r@ =~= Seq::<Option<Seq<Byte>>>::empty());
        r
    }

    /// Allocates a block of undefined bytes of the size of `dtype`, and returns its id: the
    /// number of blocks before.
    pub fn allocate(&mut self, dtype: &Dtype, structs: &StringMap<Option<Dtype>>) -> (r: Result<usize, InterpreterError>)
        requires
            structs.wf(),
            size_align_ok(dtype@, structs_view(*structs)),
            spec_size_align(dtype@, structs_view(*structs)) is Ok,
        ensures
            r == Ok::<usize, InterpreterError>(old(self)@.len() as usize),
            final(self)@ == old(self)@.push(Some(undef_bytes(byte_size(dtype@, structs_view(*structs))))),
    {
        let bid = self.inner.len();
        let (size, _) = dtype.size_align_of(structs).unwrap();
        let block = undef_vec(size);
        self.inner.push(Some(block));
        assert(self@ =~= old(self)@.push(Some(undef_bytes(byte_size(dtype@, structs_view(*structs))))));
        Ok(bid)
    }

    /// Frees block `bid`, which must be allocated, be read from its start, and have the size of
    /// `dtype`.
    pub fn dealloc(&mut self, bid: usize, offset: isize, dtype: &Dtype, structs: &StringMap<Option<Dtype>>) -> (r:
        Result<(), InterpreterError>)
        requires
            structs.wf(),
            size_align_ok(dtype@, structs_view(*structs)),
            spec_size_align(dtype@, structs_view(*structs)) is Ok,
            bid < old(self)@.len(),
            offset == 0,
            old(self)@[bid as int] matches Some(b) && b.len() == byte_size(dtype@, structs_view(*structs)),
        ensures
            r is Ok,
            final(self)@ == old(self)@.update(bid as int, None),
    {
        let (size, _) = dtype.size_align_of(structs).unwrap();
        self.inner.set(bid, None);
        assert(self@ =~= old(self)@.update(bid as int, None));
        Ok(())
    }

    /// The value of type `dtype` at `offset` in block `bid`, which must be allocated: read from
    /// its bytes (see `Byte::bytes_to_value`) where they lie within the block, undefined
    /// otherwise.
    pub fn load(&self, bid: usize, offset: isize, dtype: &Dtype, structs: &StringMap<Option<Dtype>>) -> (r: Result<
        Value,
        InterpreterError,
    >)
        requires
            structs.wf(),
            size_align_ok(dtype@, structs_view(*structs)),
            spec_size_align(dtype@, structs_view(*structs)) is Ok,
            bid < self@.len(),
            self@[bid as int] is Some,
            range_fits(offset, byte_size(dtype@, structs_view(*structs))),
            in_block(offset, byte_size(dtype@, structs_view(*structs)), self@[bid as int].unwrap().len()) ==> exists|
                fuel: nat,
            |
                #[trigger] bytes_read_ok(
                    self@[bid as int].unwrap().subrange(
                        offset as int,
                        offset + byte_size(dtype@, structs_view(*structs)),
                    ),
                    dtype@,
                    structs_view(*structs),
                    fuel,
                ),
        ensures
            ({
                let size = byte_size(dtype@, structs_view(*structs));
                let block = self@[bid as int].unwrap();
                if in_block(offset, size, block.len()) {
                    let bs = block.subrange(offset as int, offset + size);
                    r matches Ok(v) && bytes_read(bs, dtype@, structs_view(*structs), read_fuel(bs, dtype@, structs_view(*structs)), v)
                } else {
                    r matches Ok(Value::Undef { dtype: d }) && d@ == dtype@
                }
            }),
    {
        let (size, _) = dtype.size_align_of(structs).unwrap();
        let end = offset as usize + size;
        let block = self.inner[bid].as_ref().unwrap();
        assert(self@[bid as int] == Some(block@));
        if 0 <= offset && end <= block.len() {
            let bytes = copy_range(block.as_slice(), offset as usize, end);
            Byte::bytes_to_value(bytes.as_slice(), dtype, structs)
        } else {
            Ok(Value::Undef { dtype: dtype.duplicate() })
        }
    }

    /// Writes the bytes of `value` (see `Byte::value_to_bytes`) at `offset` in block `bid`,
    /// which must be allocated, where they lie within the block; an error otherwise.
    pub fn store(&mut self, bid: usize, offset: isize, value: &Value, structs: &StringMap<Option<Dtype>>) -> (r:
        Result<(), ()>)
        requires
            structs.wf(),
            value_bytes_ok(*value, structs_view(*structs)),
            has_dtype(*value),
            size_align_ok(value_dtype(*value), structs_view(*structs)),
            spec_size_align(value_dtype(*value), structs_view(*structs)) is Ok,
            bid < old(self)@.len(),
            old(self)@[bid as int] is Some,
            range_fits(offset, byte_size(value_dtype(*value), structs_view(*structs))),
        ensures
            ({
                let size = byte_size(value_dtype(*value), structs_view(*structs));
                let block = old(self)@[bid as int].unwrap();
                if in_block(offset, size, block.len()) {
                    r is Ok && final(self)@ == old(self)@.update(
                        bid as int,
                        Some(seq_splice(block, offset as int, size as int, value_bytes(*value, structs_view(*structs)))),
                    )
                } else {
                    r is Err && final(self)@ == old(self)@
                }
            }),
    {
        let d = value.dtype();
        let (size, _) = d.size_align_of(structs).unwrap();
        let end = offset as usize + size;
        let bytes = Byte::value_to_bytes(value, structs);
        let block = self.inner[bid].as_ref().unwrap();
        assert(old(self)@[bid as int] == Some(block@));
        if 0 <= offset && end <= block.len() {
            let updated = splice(block, offset as usize, size, &bytes);
            self.inner.set(bid, Some(updated));
            assert(self@ =~= old(self)@.update(
                bid as int,
                Some(seq_splice(block@, offset as int, size as int, value_bytes(*value, structs_view(*structs)))),
            ));
            Ok(())
        } else {
            Err(())
        }
    }
}
} // verus!
