use lib::ir::interp::Byte;
use lib::ir::memory::Memory;
use lib::ir::{Dtype, Value};
use lib::utils::StringMap;

fn int_value(value: u128, width: usize, is_signed: bool) -> Value {
    Value::Int { value, width, is_signed }
}

#[test]
fn integers_as_bytes() {
    let structs = StringMap::new();
    // -5 as a signed 32-bit integer
    let v = int_value(u128::MAX - 4, 32, true);
    let bytes = Byte::value_to_bytes(&v, &structs);
    assert_eq!(bytes, vec![Byte::Concrete(0xfb), Byte::Concrete(0xff), Byte::Concrete(0xff), Byte::Concrete(0xff)]);
    match Byte::bytes_to_value(&bytes, &Dtype::int_type(), &structs).unwrap() {
        Value::Int { value, width, is_signed } => assert_eq!((value, width, is_signed), (u128::MAX - 4, 32, true)),
        other => panic!("unexpected {other:?}"),
    }
    // read as unsigned, the same bytes give 2^32 - 5
    match Byte::bytes_to_value(&bytes, &Dtype::int_type().set_signed(false), &structs).unwrap() {
        Value::Int { value, .. } => assert_eq!(value, (1u128 << 32) - 5),
        other => panic!("unexpected {other:?}"),
    }
    // an unknown byte makes the value undefined
    let mixed = vec![Byte::Concrete(1), Byte::Undef, Byte::Concrete(0), Byte::Concrete(0)];
    assert!(matches!(Byte::bytes_to_value(&mixed, &Dtype::int_type(), &structs).unwrap(), Value::Undef { .. }));
}

#[test]
fn pointers_and_arrays_as_bytes() {
    let structs = StringMap::new();
    let p = Value::Pointer { bid: Some(3), offset: 4, dtype: Dtype::char_type() };
    let bytes = Byte::value_to_bytes(&p, &structs);
    assert_eq!(bytes.len(), 8);
    assert_eq!(bytes[5], Byte::Pointer { bid: Some(3), offset: 4, index: 5 });
    let pointer_type = Dtype::pointer(Dtype::char_type());
    match Byte::bytes_to_value(&bytes, &pointer_type, &structs).unwrap() {
        Value::Pointer { bid, offset, dtype } => {
            assert_eq!((bid, offset), (Some(3), 4));
            assert_eq!(dtype.to_string(), "i8");
        }
        other => panic!("unexpected {other:?}"),
    }
    // bytes of two different pointers read as an undefined pointee
    let mut mixed = bytes.clone();
    mixed[7] = Byte::Pointer { bid: Some(2), offset: 4, index: 7 };
    match Byte::bytes_to_value(&mixed, &pointer_type, &structs).unwrap() {
        Value::Undef { dtype } => assert_eq!(dtype.to_string(), "i8"),
        other => panic!("unexpected {other:?}"),
    }

    let short = Dtype::short_type();
    let array = Value::Array { inner_dtype: short, values: vec![int_value(1, 16, true), int_value(258, 16, true)] };
    let bytes = Byte::value_to_bytes(&array, &structs);
    assert_eq!(bytes, vec![Byte::Concrete(1), Byte::Concrete(0), Byte::Concrete(2), Byte::Concrete(1)]);
    match Byte::bytes_to_value(&bytes, &Dtype::array(Dtype::short_type(), 2), &structs).unwrap() {
        Value::Array { values, .. } => {
            assert!(matches!(values[1], Value::Int { value: 258, width: 16, is_signed: true }));
        }
        other => panic!("unexpected {other:?}"),
    }
}

#[test]
fn memory_blocks() {
    let structs = StringMap::new();
    let mut memory = Memory::new();
    let a = memory.allocate(&Dtype::int_type(), &structs).unwrap();
    let b = memory.allocate(&Dtype::long_type(), &structs).unwrap();
    assert_eq!((a, b), (0, 1));
    // a fresh block reads as undefined
    assert!(matches!(memory.load(a, 0, &Dtype::int_type(), &structs).unwrap(), Value::Undef { .. }));
    memory.store(a, 0, &int_value(7, 32, true), &structs).unwrap();
    assert!(matches!(memory.load(a, 0, &Dtype::int_type(), &structs).unwrap(), Value::Int { value: 7, .. }));
    // a store past the end of the block fails, a load there is undefined
    assert!(memory.store(a, 2, &int_value(7, 32, true), &structs).is_err());
    assert!(matches!(memory.load(a, 2, &Dtype::int_type(), &structs).unwrap(), Value::Undef { .. }));
    // one byte of a stored integer
    assert!(matches!(memory.load(a, 0, &Dtype::char_type(), &structs).unwrap(), Value::Int { value: 7, width: 8, .. }));
    memory.dealloc(a, 0, &Dtype::int_type(), &structs).unwrap();
}
