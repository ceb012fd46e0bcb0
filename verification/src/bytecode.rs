//! The program that the machine runs.
use vstd::prelude::*;
use crate::value::{FunctionKey, Meta, OpIndex, Region, Value, ValueType};

verus! {

/// What an instruction does.
#[allow(non_camel_case_types)]
#[derive(Clone, Copy, PartialEq, Eq, Structural, Debug)]
pub enum Opcode {
    VOID,
    DUPLICATE,
    LOAD_SLICE,
    STORE_SLICE,
    LOAD_ARRAY,
    STORE_ARRAY,
    LOAD_MAP,
    STORE_MAP,
    LOAD_STRUCT,
    STORE_STRUCT,
    LOAD_EMBEDDED,
    STORE_EMBEDDED,
    LOAD_PKG,
    STORE_PKG,
    LOAD_POINTER,
    STORE_POINTER,
    LOAD_UP_VALUE,
    STORE_UP_VALUE,
    ADD,
    SUB,
    MUL,
    QUO,
    REM,
    AND,
    OR,
    XOR,
    AND_NOT,
    SHL,
    SHR,
    ADD_ASSIGN,
    SUB_ASSIGN,
    MUL_ASSIGN,
    QUO_ASSIGN,
    REM_ASSIGN,
    AND_ASSIGN,
    OR_ASSIGN,
    XOR_ASSIGN,
    AND_NOT_ASSIGN,
    SHL_ASSIGN,
    SHR_ASSIGN,
    INC,
    DEC,
    UNARY_SUB,
    UNARY_XOR,
    NOT,
    EQL,
    NEQ,
    LSS,
    GTR,
    LEQ,
    GEQ,
    REF,
    REF_UPVALUE,
    REF_SLICE_MEMBER,
    REF_STRUCT_FIELD,
    REF_EMBEDDED,
    REF_PKG_MEMBER,
    SEND,
    RECV,
    PACK_VARIADIC,
    CALL,
    RETURN,
    JUMP,
    JUMP_IF,
    JUMP_IF_NOT,
    SWITCH,
    SELECT,
    RANGE_INIT,
    RANGE,
    LOAD_INIT_FUNC,
    BIND_METHOD,
    BIND_I_METHOD,
    CAST,
    TYPE_ASSERT,
    TYPE,
    IMPORT,
    SLICE,
    CLOSURE,
    LITERAL,
    NEW,
    MAKE,
    COMPLEX,
    REAL,
    IMAG,
    LEN,
    CAP,
    APPEND,
    COPY,
    DELETE,
    CLOSE,
    PANIC,
    RECOVER,
    ASSERT,
    FFI,
}

/// An instruction: what to do, the types involved, where the result goes and
/// where the operands come from.
#[derive(Clone, Copy, PartialEq, Eq, Structural, Debug)]
pub struct Instruction {
    pub op0: Opcode,
    /// An operation to combine with a store.
    pub op1: Opcode,
    /// A third type, for the conversions that need one.
    pub op1_t: ValueType,
    pub t0: ValueType,
    pub t1: ValueType,
    pub d: OpIndex,
    pub s0: OpIndex,
    pub s1: OpIndex,
}

/// A variable that a function captures: slot `index` in the frame of `func`.
/// Once the frame is known, `stack` and `stack_base` say where it lies.
#[derive(Clone, Copy, PartialEq, Eq, Structural, Debug)]
pub struct ValueDesc {
    pub func: FunctionKey,
    pub index: OpIndex,
    pub typ: ValueType,
    pub is_local: bool,
    pub stack: Option<usize>,
    pub stack_base: OpIndex,
}

/// A function of the program.
pub struct FunctionObj {
    pub code: Vec<Instruction>,
    pub param_count: OpIndex,
    pub ret_zeros: Vec<Value>,
    pub local_zeros: Vec<Value>,
    pub up_ptrs: Vec<ValueDesc>,
    pub max_write_index: OpIndex,
}

/// A field of a struct type or a method of an interface type.
pub struct FieldInfo {
    pub name: Vec<u8>,
    pub meta: Meta,
}

/// The description of a type.
pub enum MetadataType {
    /// A type that is made of no other.
    Basic(ValueType),
    Array(Meta, usize),
    Slice(Meta),
    GoMap(Meta, Meta),
    Channel(u8, Meta),
    Struct(Vec<FieldInfo>),
    Interface(Vec<FieldInfo>),
    Signature { params: Vec<Meta>, results: Vec<Meta> },
    Named(Meta),
}

/// How a method of an interface is reached from the value below: as a method
/// of the value (with a pointer receiver or not), or as a method of an
/// interface. The path leads through embedded fields first.
pub enum Binding4Runtime {
    Struct { func: FunctionKey, ptr_recv: bool, indices: Option<Vec<OpIndex>> },
    Iface { index: usize, indices: Option<Vec<OpIndex>> },
}

/// A type together with the methods that make it implement an interface.
pub struct IfaceBinding {
    pub meta: Meta,
    pub methods: Vec<Binding4Runtime>,
}

/// A package: where its members lie, its initialisers, and which member each
/// variable of its constructor becomes.
pub struct PackageObj {
    pub members: Region,
    pub init_funcs: Vec<Value>,
    pub var_mapping: Vec<usize>,
}

/// A program.
pub struct Bytecode {
    pub functions: Vec<FunctionObj>,
    pub metas: Vec<MetadataType>,
    pub packages: Vec<PackageObj>,
    pub consts: Vec<Value>,
    pub ifaces: Vec<IfaceBinding>,
    pub indices: Vec<Vec<OpIndex>>,
    /// The type of a nil interface.
    pub none_meta: Meta,
    pub entry: FunctionKey,
}

impl Instruction {
    /// The third type.
    pub fn op1_as_t(&self) -> (r: ValueType)
        ensures
            r == self.op1_t,
    {
        self.op1_t
    }
}

} // verus!
