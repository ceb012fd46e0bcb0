//! The values a program computes with.
//!
//! Every value is a small copyable word. What is shared between values (the
//! elements of an array, the fields of a struct, the entries of a map, a
//! captured variable) lives in the tables of the machine, and a value names it
//! by its position there.
use vstd::prelude::*;

verus! {

/// An operand of an instruction: a stack slot counted from the stack base when
/// it is not negative, a constant otherwise. Also a position in the code.
pub type OpIndex = i32;

/// The position of a function in the program.
pub type FunctionKey = usize;

/// The position of a package in the program.
pub type PackageKey = usize;

/// The position of a type description in the program.
pub type MetadataKey = usize;

/// The type of a value as the instructions see it. The flags are no types: the
/// instructions use them to select a variant of their work.
#[derive(Clone, Copy, PartialEq, Eq, Structural, Debug)]
pub enum ValueType {
    Void,
    Bool,
    Int,
    Int8,
    Int16,
    Int32,
    Int64,
    Uint,
    UintPtr,
    Uint8,
    Uint16,
    Uint32,
    Uint64,
    Float32,
    Float64,
    Complex64,
    Function,
    Package,
    Metadata,
    Complex128,
    String,
    Array,
    Struct,
    Pointer,
    UnsafePtr,
    Closure,
    Slice,
    GoMap,
    Interface,
    Channel,
    FlagA,
    FlagB,
    FlagC,
    FlagD,
    FlagE,
}

/// The integer types.
#[derive(Clone, Copy, PartialEq, Eq, Structural, Debug)]
pub enum IntKind {
    Int,
    Int8,
    Int16,
    Int32,
    Int64,
    Uint,
    UintPtr,
    Uint8,
    Uint16,
    Uint32,
    Uint64,
}

impl ValueType {
    /// Whether values of the type are plain words that an instruction may
    /// compare and convert without looking anything up.
    pub open spec fn spec_copyable(self) -> bool {
        match self {
            ValueType::Bool | ValueType::Int | ValueType::Int8 | ValueType::Int16
            | ValueType::Int32 | ValueType::Int64 | ValueType::Uint | ValueType::UintPtr
            | ValueType::Uint8 | ValueType::Uint16 | ValueType::Uint32 | ValueType::Uint64
            | ValueType::Float32 | ValueType::Float64 | ValueType::Complex64
            | ValueType::Function | ValueType::Package => true,
            _ => false,
        }
    }

    /// Whether values of the type are plain words.
    pub fn copyable(self) -> (r: bool)
        ensures
            r == self.spec_copyable(),
    {
        match self {
            ValueType::Bool | ValueType::Int | ValueType::Int8 | ValueType::Int16
            | ValueType::Int32 | ValueType::Int64 | ValueType::Uint | ValueType::UintPtr
            | ValueType::Uint8 | ValueType::Uint16 | ValueType::Uint32 | ValueType::Uint64
            | ValueType::Float32 | ValueType::Float64 | ValueType::Complex64
            | ValueType::Function | ValueType::Package => true,
            _ => false,
        }
    }

    /// The integer type that this is, if it is one.
    pub open spec fn spec_int_kind(self) -> Option<IntKind> {
        match self {
            ValueType::Int => Some(IntKind::Int),
            ValueType::Int8 => Some(IntKind::Int8),
            ValueType::Int16 => Some(IntKind::Int16),
            ValueType::Int32 => Some(IntKind::Int32),
            ValueType::Int64 => Some(IntKind::Int64),
            ValueType::Uint => Some(IntKind::Uint),
            ValueType::UintPtr => Some(IntKind::UintPtr),
            ValueType::Uint8 => Some(IntKind::Uint8),
            ValueType::Uint16 => Some(IntKind::Uint16),
            ValueType::Uint32 => Some(IntKind::Uint32),
            ValueType::Uint64 => Some(IntKind::Uint64),
            _ => None,
        }
    }

    /// The integer type that this is, if it is one.
    pub fn int_kind(self) -> (r: Option<IntKind>)
        ensures
            r == self.spec_int_kind(),
    {
        match self {
            ValueType::Int => Some(IntKind::Int),
            ValueType::Int8 => Some(IntKind::Int8),
            ValueType::Int16 => Some(IntKind::Int16),
            ValueType::Int32 => Some(IntKind::Int32),
            ValueType::Int64 => Some(IntKind::Int64),
            ValueType::Uint => Some(IntKind::Uint),
            ValueType::UintPtr => Some(IntKind::UintPtr),
            ValueType::Uint8 => Some(IntKind::Uint8),
            ValueType::Uint16 => Some(IntKind::Uint16),
            ValueType::Uint32 => Some(IntKind::Uint32),
            ValueType::Uint64 => Some(IntKind::Uint64),
            _ => None,
        }
    }

    /// Whether the type is one whose arithmetic works on fractions.
    pub open spec fn spec_fractional(self) -> bool {
        self == ValueType::Float32 || self == ValueType::Float64 || self == ValueType::Complex64
            || self == ValueType::Complex128
    }

    /// Whether the type is one whose arithmetic works on fractions.
    pub fn fractional(self) -> (r: bool)
        ensures
            r == self.spec_fractional(),
    {
        self == ValueType::Float32 || self == ValueType::Float64 || self == ValueType::Complex64
            || self == ValueType::Complex128
    }
}

impl IntKind {
    /// The value type of the same name.
    pub open spec fn spec_value_type(self) -> ValueType {
        match self {
            IntKind::Int => ValueType::Int,
            IntKind::Int8 => ValueType::Int8,
            IntKind::Int16 => ValueType::Int16,
            IntKind::Int32 => ValueType::Int32,
            IntKind::Int64 => ValueType::Int64,
            IntKind::Uint => ValueType::Uint,
            IntKind::UintPtr => ValueType::UintPtr,
            IntKind::Uint8 => ValueType::Uint8,
            IntKind::Uint16 => ValueType::Uint16,
            IntKind::Uint32 => ValueType::Uint32,
            IntKind::Uint64 => ValueType::Uint64,
        }
    }

    /// The value type of the same name.
    pub fn value_type(self) -> (r: ValueType)
        ensures
            r == self.spec_value_type(),
    {
        match self {
            IntKind::Int => ValueType::Int,
            IntKind::Int8 => ValueType::Int8,
            IntKind::Int16 => ValueType::Int16,
            IntKind::Int32 => ValueType::Int32,
            IntKind::Int64 => ValueType::Int64,
            IntKind::Uint => ValueType::Uint,
            IntKind::UintPtr => ValueType::UintPtr,
            IntKind::Uint8 => ValueType::Uint8,
            IntKind::Uint16 => ValueType::Uint16,
            IntKind::Uint32 => ValueType::Uint32,
            IntKind::Uint64 => ValueType::Uint64,
        }
    }
}

/// A run of cells: the elements of an array or the fields of a struct.
#[derive(Clone, Copy, PartialEq, Eq, Structural, Debug)]
pub struct Region {
    pub base: usize,
    pub len: usize,
}

/// A window on an array: the elements from `begin` to `end`, with room to grow
/// up to `cap_end`. The three are counted from the start of the array.
#[derive(Clone, Copy, PartialEq, Eq, Structural, Debug)]
pub struct SliceRef {
    pub array: Region,
    pub begin: usize,
    pub end: usize,
    pub cap_end: usize,
}

/// What a description of a type is used for.
#[derive(Clone, Copy, PartialEq, Eq, Structural, Debug)]
pub enum MetaCategory {
    Default,
    Type,
    ArrayType,
}

/// A type: a description in the program and how many pointers lead to it.
#[derive(Clone, Copy, PartialEq, Eq, Structural, Debug)]
pub struct Meta {
    pub key: MetadataKey,
    pub category: MetaCategory,
    pub ptr_depth: u8,
}

impl Meta {
    /// The same type, taken as the type of a value.
    pub open spec fn spec_into_value_category(self) -> Meta {
        Meta { category: MetaCategory::Default, ..self }
    }

    /// The same type, taken as the type of a value.
    pub fn into_value_category(self) -> (r: Meta)
        ensures
            r == self.spec_into_value_category(),
    {
        Meta { key: self.key, category: MetaCategory::Default, ptr_depth: self.ptr_depth }
    }
}

/// What a pointer points to.
#[derive(Clone, Copy, PartialEq, Eq, Structural, Debug)]
pub enum PointerObj {
    UpVal(usize),
    SliceMember(SliceRef, OpIndex),
    StructField(Region, OpIndex),
    PkgMember(PackageKey, OpIndex),
}

/// An untyped pointer: a typed pointer in disguise, or something of the host.
#[derive(Clone, Copy, PartialEq, Eq, Structural, Debug)]
pub enum UnsafePtr {
    Handle(PointerObj),
    Foreign(u64),
}

/// An interface value: a value in the cell `under` with the table of its
/// methods, or an object of the host.
#[derive(Clone, Copy, PartialEq, Eq, Structural, Debug)]
pub enum InterfaceObj {
    Gos { under: usize, binding: Option<usize> },
    Ffi { ffi: usize, meta: Meta },
}

/// A value. An integer is held as the number it stands for; a fraction as the
/// bits of its representation.
#[derive(Clone, Copy, PartialEq, Eq, Structural, Debug)]
pub enum Value {
    Nil(ValueType),
    Bool(bool),
    Int(IntKind, i128),
    Float32(u32),
    Float64(u64),
    Complex64(u32, u32),
    Complex128(u64, u64),
    Function(FunctionKey),
    Package(PackageKey),
    Metadata(Meta),
    Str(SliceRef),
    Array(Region),
    Struct(Region),
    Pointer(PointerObj),
    UnsafePtr(UnsafePtr),
    Closure(usize),
    Slice(SliceRef),
    GoMap(usize),
    Interface(InterfaceObj),
    Channel(usize),
}

/// The value that fills a stack slot or a cell that nothing was written to.
pub open spec fn void() -> Value {
    Value::Nil(ValueType::Void)
}

/// A signed machine integer as a value.
pub open spec fn int_of(n: int) -> Value {
    Value::Int(IntKind::Int, n as i128)
}

/// One byte of a string.
pub open spec fn byte_of(b: u8) -> Value {
    Value::Int(IntKind::Uint8, b as i128)
}

/// One character of a string that was taken apart.
pub open spec fn rune_of(c: int) -> Value {
    Value::Int(IntKind::Int32, c as i128)
}

impl Value {
    /// The type of the value.
    pub open spec fn spec_typ(self) -> ValueType {
        match self {
            Value::Nil(t) => t,
            Value::Bool(_) => ValueType::Bool,
            Value::Int(k, _) => k.spec_value_type(),
            Value::Float32(_) => ValueType::Float32,
            Value::Float64(_) => ValueType::Float64,
            Value::Complex64(_, _) => ValueType::Complex64,
            Value::Complex128(_, _) => ValueType::Complex128,
            Value::Function(_) => ValueType::Function,
            Value::Package(_) => ValueType::Package,
            Value::Metadata(_) => ValueType::Metadata,
            Value::Str(_) => ValueType::String,
            Value::Array(_) => ValueType::Array,
            Value::Struct(_) => ValueType::Struct,
            Value::Pointer(_) => ValueType::Pointer,
            Value::UnsafePtr(_) => ValueType::UnsafePtr,
            Value::Closure(_) => ValueType::Closure,
            Value::Slice(_) => ValueType::Slice,
            Value::GoMap(_) => ValueType::GoMap,
            Value::Interface(_) => ValueType::Interface,
            Value::Channel(_) => ValueType::Channel,
        }
    }

    /// The type of the value.
    pub fn typ(self) -> (r: ValueType)
        ensures
            r == self.spec_typ(),
    {
        match self {
            Value::Nil(t) => t,
            Value::Bool(_) => ValueType::Bool,
            Value::Int(k, _) => k.value_type(),
            Value::Float32(_) => ValueType::Float32,
            Value::Float64(_) => ValueType::Float64,
            Value::Complex64(_, _) => ValueType::Complex64,
            Value::Complex128(_, _) => ValueType::Complex128,
            Value::Function(_) => ValueType::Function,
            Value::Package(_) => ValueType::Package,
            Value::Metadata(_) => ValueType::Metadata,
            Value::Str(_) => ValueType::String,
            Value::Array(_) => ValueType::Array,
            Value::Struct(_) => ValueType::Struct,
            Value::Pointer(_) => ValueType::Pointer,
            Value::UnsafePtr(_) => ValueType::UnsafePtr,
            Value::Closure(_) => ValueType::Closure,
            Value::Slice(_) => ValueType::Slice,
            Value::GoMap(_) => ValueType::GoMap,
            Value::Interface(_) => ValueType::Interface,
            Value::Channel(_) => ValueType::Channel,
        }
    }
}

} // verus!
