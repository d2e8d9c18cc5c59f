use vstd::prelude::*;

verus! {

/// A message payload as it crosses to and from an isolate.
///
/// Floating-point payloads travel as their IEEE-754 bit patterns.
#[derive(Debug, PartialEq)]
pub enum Value {
    Null,
    Bool(bool),
    I64(i64),
    F64Bits(u64),
    String(String),
    I8List(Vec<i8>),
    U8List(Vec<u8>),
    I16List(Vec<i16>),
    U16List(Vec<u16>),
    I32List(Vec<i32>),
    U32List(Vec<u32>),
    I64List(Vec<i64>),
    F32BitsList(Vec<u32>),
    F64BitsList(Vec<u64>),
    List(Vec<Value>),
    /// Ordered key-value pairs.
    Dict(Vec<(Value, Value)>),
    /// Reference to a finalizable object, by its registry id.
    FinalizableHandle(isize),
}

/// Whether `v` refers to the finalizable object `id`, at any depth of lists
/// and maps (keys included).
pub open spec fn holds_handle(v: Value, id: isize) -> bool
    decreases v,
{
    match v {
        Value::FinalizableHandle(h) => h == id,
        Value::List(items) => list_holds_handle(items@, id),
        Value::Dict(entries) => dict_holds_handle(entries@, id),
        _ => false,
    }
}

/// Whether some item of `items` refers to the object `id`.
pub open spec fn list_holds_handle(items: Seq<Value>, id: isize) -> bool
    decreases items,
{
    if items.len() == 0 {
        false
    } else {
        list_holds_handle(items.drop_last(), id) || holds_handle(items.last(), id)
    }
}

/// Whether some key or value of `entries` refers to the object `id`.
pub open spec fn dict_holds_handle(entries: Seq<(Value, Value)>, id: isize) -> bool
    decreases entries,
{
    if entries.len() == 0 {
        false
    } else {
        dict_holds_handle(entries.drop_last(), id) || holds_handle(entries.last().0, id)
            || holds_handle(entries.last().1, id)
    }
}

} // verus!
