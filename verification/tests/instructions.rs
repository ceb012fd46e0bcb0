//! Single instructions on given slots.
use go_vm::bytecode::{
    Binding4Runtime, Bytecode, FieldInfo, FunctionObj, IfaceBinding, Instruction, MetadataType,
    Opcode, PackageObj, ValueDesc,
};
use go_vm::fiber::{Fiber, Step};
use go_vm::machine::{ClosureObj, UpValueState, Vm};
use go_vm::run::start;
use go_vm::trap::{RuntimeError, Trap};
use go_vm::value::{
    IntKind, InterfaceObj, Meta, MetaCategory, PointerObj, Region, Value, ValueType,
};

fn inst(op0: Opcode, d: i32, s0: i32, s1: i32) -> Instruction {
    Instruction {
        op0,
        op1: Opcode::VOID,
        op1_t: ValueType::Void,
        t0: ValueType::Int,
        t1: ValueType::Int,
        d,
        s0,
        s1,
    }
}

fn typed(op0: Opcode, t0: ValueType, d: i32, s0: i32, s1: i32) -> Instruction {
    Instruction { t0, ..inst(op0, d, s0, s1) }
}

fn adding(i: Instruction) -> Instruction {
    Instruction { op1: Opcode::ADD, ..i }
}

fn num(n: i128) -> Value {
    Value::Int(IntKind::Int, n)
}

fn meta(key: usize) -> Meta {
    Meta { key, category: MetaCategory::Default, ptr_depth: 0 }
}

// types: 0 int, 1 string, 2 []int, 3 struct { int; int }, 4 map, 5 a name for 2, 6 [3]int
fn program() -> Bytecode {
    Bytecode {
        functions: vec![],
        metas: vec![
            MetadataType::Basic(ValueType::Int),
            MetadataType::Basic(ValueType::String),
            MetadataType::Slice(meta(0)),
            MetadataType::Struct(vec![
                FieldInfo { name: b"a".to_vec(), meta: meta(0) },
                FieldInfo { name: b"b".to_vec(), meta: meta(0) },
            ]),
            MetadataType::GoMap(meta(0), meta(0)),
            MetadataType::Named(meta(2)),
            MetadataType::Array(meta(0), 3),
        ],
        packages: vec![PackageObj {
            members: Region { base: 0, len: 2 },
            init_funcs: vec![],
            var_mapping: vec![],
        }],
        consts: vec![
            num(1),
            Value::Metadata(meta(0)),
            Value::Metadata(meta(1)),
            Value::Metadata(meta(3)),
            Value::Package(0),
            Value::Metadata(meta(5)),
            Value::Function(0),
            num(2),
        ],
        ifaces: vec![IfaceBinding {
            meta: meta(0),
            methods: vec![Binding4Runtime::Struct { func: 0, ptr_recv: false, indices: None }],
        }],
        indices: vec![vec![0, 1]],
        none_meta: meta(4),
        entry: 0,
    }
}

struct Run {
    p: Bytecode,
    vm: Vm,
    f: Fiber,
}

impl Run {
    fn new(code: Vec<Instruction>) -> Run {
        let mut p = program();
        let mut all = code;
        all.push(typed(Opcode::RETURN, ValueType::FlagA, 0, 0, 0));
        p.functions.push(FunctionObj {
            code: all,
            param_count: 0,
            ret_zeros: vec![],
            local_zeros: vec![],
            up_ptrs: vec![],
            max_write_index: 16,
        });
        let mut vm = Vm::new(1);
        vm.new_cells(&vec![num(70), num(71)]);
        let mut f = start(&p, &mut vm, false).unwrap();
        f.started = true;
        Run { p, vm, f }
    }

    fn slots(&mut self, vals: Vec<Value>) {
        self.vm.set_vec(0, 0, &vals).unwrap();
    }

    fn step(&mut self) {
        assert!(matches!(self.f.step(&self.p, &mut self.vm), Ok(Step::Next)));
        assert!(self.f.panic.is_none());
    }

    fn fail(&mut self) -> String {
        assert!(matches!(self.f.step(&self.p, &mut self.vm), Ok(Step::Next)));
        let msg = self.f.panic.as_ref().unwrap().msg;
        self.text(msg)
    }

    fn slot(&self, i: i32) -> Value {
        self.vm.get(0, i).unwrap()
    }

    fn pc(&self) -> i32 {
        self.f.frames[0].pc
    }

    fn text(&self, v: Value) -> String {
        match v {
            Value::Interface(InterfaceObj::Gos { under, .. }) => self.text(self.vm.cells[under]),
            Value::Str(s) => String::from_utf8(self.vm.get_bytes(s).unwrap()).unwrap(),
            v => panic!("no string: {:?}", v),
        }
    }

    fn elems(&self, v: Value) -> Vec<Value> {
        self.vm.get_elements(false, v).unwrap()
    }
}

#[test]
fn duplicate_copies_structs() {
    let mut r = Run::new(vec![inst(Opcode::DUPLICATE, 1, 0, 0)]);
    let s = Value::Struct(r.vm.new_cells(&vec![num(1), num(2)]));
    r.slots(vec![s, num(0)]);
    r.step();
    assert_ne!(r.slot(1), s);
    let t = r.slot(1);
    assert_eq!(r.vm.equal(&r.p, s, t), Ok(true));
}

#[test]
fn slices_and_arrays_are_loaded_and_stored() {
    let mut r = Run::new(vec![
        inst(Opcode::STORE_SLICE, 0, -1, -8),
        adding(inst(Opcode::STORE_SLICE, 0, -1, -8)),
        inst(Opcode::LOAD_SLICE, 2, 0, -1),
        inst(Opcode::STORE_ARRAY, 1, -1, -8),
        adding(inst(Opcode::STORE_ARRAY, 1, -1, -1)),
        inst(Opcode::LOAD_ARRAY, 3, 1, -1),
        inst(Opcode::STORE_ARRAY, 1, -8, -1),
    ]);
    let s = r.vm.slice_with_data(&vec![num(7), num(7)]);
    let a = r.vm.array_with_data(&vec![num(7), num(7)]);
    r.slots(vec![s, a, num(0), num(0)]);
    for _ in 0..6 {
        r.step();
    }
    assert_eq!((r.slot(2), r.slot(3)), (num(4), num(3)));
    assert_eq!(r.fail(), RuntimeError::IndexOutOfRange.message());
    assert_eq!(r.elems(s), vec![num(7), num(4)]);
}

#[test]
fn maps_are_loaded_and_stored() {
    let ok = Instruction { t1: ValueType::FlagB, ..inst(Opcode::LOAD_MAP, 1, 0, -1) };
    let mut r = Run::new(vec![
        adding(inst(Opcode::STORE_MAP, 0, -1, -8)),
        inst(Opcode::VOID, 0, 3, 0),
        ok,
        inst(Opcode::VOID, 2, -1, 0),
        inst(Opcode::DELETE, 0, 0, -1),
        ok,
        inst(Opcode::VOID, 2, -8, 0),
        inst(Opcode::STORE_MAP, 4, -1, -8),
        inst(Opcode::VOID, 0, 3, 0),
    ]);
    let m = Value::GoMap(r.vm.new_map());
    r.slots(vec![m, num(0), num(0), num(100), Value::Nil(ValueType::GoMap)]);
    r.step();
    r.step();
    // the old value of a key that is not there is the zero operand
    assert_eq!((r.slot(1), r.slot(2)), (num(102), Value::Bool(true)));
    assert_eq!(r.pc(), 4);
    r.step();
    r.step();
    assert_eq!((r.slot(1), r.slot(2)), (num(2), Value::Bool(false)));
    assert_eq!(r.fail(), RuntimeError::NilAccess.message());
    // both words belong to the instruction
    assert_eq!(r.f.panic.as_ref().unwrap().call_stack, vec![(0, 8)]);
}

#[test]
fn nil_map_holds_nothing() {
    let mut r = Run::new(vec![
        inst(Opcode::LOAD_MAP, 1, 0, -1),
        inst(Opcode::VOID, 2, -8, 0),
        inst(Opcode::DELETE, 0, 0, -1),
    ]);
    r.slots(vec![Value::Nil(ValueType::GoMap), num(0), num(5)]);
    r.step();
    assert_eq!((r.slot(1), r.slot(2)), (num(2), num(5)));
    r.step();
}

#[test]
fn fields_and_members_are_loaded_and_stored() {
    let mut r = Run::new(vec![
        inst(Opcode::STORE_STRUCT, 0, 1, -8),
        adding(inst(Opcode::STORE_STRUCT, 0, 1, -8)),
        inst(Opcode::LOAD_STRUCT, 2, 0, 1),
        inst(Opcode::STORE_EMBEDDED, 1, 0, -1),
        adding(inst(Opcode::STORE_EMBEDDED, 1, 0, -8)),
        inst(Opcode::LOAD_EMBEDDED, 3, 1, 0),
        adding(inst(Opcode::STORE_PKG, -5, 1, -8)),
        inst(Opcode::LOAD_PKG, 4, -5, 1),
        inst(Opcode::STORE_PKG, -5, 0, -1),
    ]);
    let s = Value::Struct(r.vm.new_cells(&vec![num(1), num(2)]));
    let outer = Value::Struct(r.vm.new_cells(&vec![s]));
    r.slots(vec![s, outer, num(0), num(0), num(0)]);
    for _ in 0..9 {
        r.step();
    }
    assert_eq!((r.slot(2), r.slot(3), r.slot(4)), (num(4), num(3), num(73)));
    assert_eq!(r.vm.cells[0], num(1));
}

#[test]
fn pointers_lead_to_what_they_were_made_from() {
    let array = Instruction { t0: ValueType::Array, ..inst(Opcode::REF_SLICE_MEMBER, 4, 1, -1) };
    let mut r = Run::new(vec![
        inst(Opcode::REF, 2, -8, 0),
        inst(Opcode::STORE_POINTER, 2, -1, 0),
        inst(Opcode::LOAD_POINTER, 3, 2, 0),
        array,
        inst(Opcode::STORE_POINTER, 4, -8, 0),
        inst(Opcode::REF_STRUCT_FIELD, 5, 0, 1),
        inst(Opcode::STORE_POINTER, 5, -8, 0),
        inst(Opcode::REF_PKG_MEMBER, 6, -5, 1),
        adding(inst(Opcode::STORE_POINTER, 6, -8, 0)),
        inst(Opcode::LOAD_POINTER, 7, 6, 0),
        inst(Opcode::LOAD_POINTER, 7, 8, 0),
    ]);
    let region = r.vm.new_cells(&vec![num(30), num(31)]);
    let s = Value::Struct(region);
    let a = r.vm.array_with_data(&vec![num(5), num(6)]);
    let nil = Value::Nil(ValueType::Pointer);
    let mut slots = vec![num(0); 8];
    slots[0] = s;
    slots[1] = a;
    slots.push(nil);
    r.slots(slots);
    for _ in 0..10 {
        r.step();
    }
    assert_eq!(r.slot(3), num(1));
    assert_eq!(r.slot(5), Value::Pointer(PointerObj::StructField(region, 1)));
    assert_eq!(r.vm.get_region(region).unwrap(), vec![num(30), num(2)]);
    assert_eq!(r.slot(6), Value::Pointer(PointerObj::PkgMember(0, 1)));
    assert_eq!(r.slot(7), num(73));
    assert_eq!(r.fail(), RuntimeError::NilAccess.message());
    let whole = go_vm::slices::get_slice_array(a, 0, -1).unwrap();
    assert_eq!(r.elems(whole), vec![num(5), num(2)]);
}

#[test]
fn pointer_to_an_element_is_tried_when_it_is_used() {
    let member = Instruction { t0: ValueType::Slice, ..inst(Opcode::REF_SLICE_MEMBER, 1, 0, -8) };
    let mut r = Run::new(vec![member, inst(Opcode::LOAD_POINTER, 2, 1, 0), member]);
    let s = r.vm.slice_with_data(&vec![num(5)]);
    r.slots(vec![s, num(0), num(0)]);
    r.step();
    assert_eq!(r.fail(), RuntimeError::IndexOutOfRange.message());
    let mut r = Run::new(vec![member]);
    r.slots(vec![Value::Nil(ValueType::Slice)]);
    assert_eq!(r.fail(), RuntimeError::NilAccess.message());
}

#[test]
fn embedded_fields_are_referred_to() {
    let mut r = Run::new(vec![inst(Opcode::REF_EMBEDDED, 1, 0, 0)]);
    let region = r.vm.new_cells(&vec![num(1), num(2)]);
    let outer = Value::Struct(r.vm.new_cells(&vec![Value::Struct(region)]));
    r.slots(vec![outer, num(0)]);
    r.step();
    assert_eq!(r.slot(1), Value::Pointer(PointerObj::StructField(region, 1)));
}

#[test]
fn captured_variables_are_loaded_stored_and_referred_to() {
    let mut r = Run::new(vec![
        adding(inst(Opcode::STORE_UP_VALUE, 0, -8, 0)),
        inst(Opcode::LOAD_UP_VALUE, 0, 0, 0),
        inst(Opcode::REF_UPVALUE, 1, 0, 0),
    ]);
    let id = r.vm.new_upval(UpValueState::Closed(num(40)));
    let ptr = Value::Pointer(PointerObj::UpVal(id));
    r.f.frames[0].var_ptrs = Some(r.vm.new_cells(&vec![ptr]));
    r.slots(vec![num(0), num(0)]);
    for _ in 0..3 {
        r.step();
    }
    assert_eq!((r.slot(0), r.slot(1)), (num(42), ptr));
    // a variable that lies on the stack is its slot
    let desc = ValueDesc {
        func: 0,
        index: 3,
        typ: ValueType::Int,
        is_local: true,
        stack: Some(0),
        stack_base: 0,
    };
    let open = r.vm.new_upval(UpValueState::Open(desc));
    r.vm.set(0, 3, num(9)).unwrap();
    assert_eq!(r.vm.get_upvalue(open), Ok(num(9)));
    r.vm.set_upvalue(open, num(10)).unwrap();
    assert_eq!(r.slot(3), num(10));
}

#[test]
fn strings_are_joined_and_compared() {
    let string = |op, d| {
        let t = ValueType::String;
        Instruction { t1: t, ..typed(op, t, d, 0, 1) }
    };
    let mut r = Run::new(vec![
        string(Opcode::ADD, 2),
        string(Opcode::LSS, 3),
        string(Opcode::GTR, 4),
        string(Opcode::LEQ, 5),
        string(Opcode::GEQ, 6),
        string(Opcode::EQL, 7),
        string(Opcode::NEQ, 8),
        typed(Opcode::ADD_ASSIGN, ValueType::String, 0, 1, 0),
    ]);
    let (a, b) = (r.vm.add_text("ab"), r.vm.add_text("abc"));
    let mut slots = vec![num(0); 9];
    slots[0] = a;
    slots[1] = b;
    r.slots(slots);
    for _ in 0..8 {
        r.step();
    }
    assert_eq!(r.text(r.slot(2)), "ababc");
    let truths: Vec<Value> = (3..9).map(|i| r.slot(i)).collect();
    let wanted = [true, false, true, false, false, true];
    assert_eq!(truths, wanted.iter().map(|b| Value::Bool(*b)).collect::<Vec<Value>>());
    assert_eq!(r.text(r.slot(0)), "ababc");
}

#[test]
fn numbers_are_compared_with_what_interfaces_hold() {
    let mixed = |op, d, s1| Instruction {
        t1: ValueType::Interface,
        ..typed(op, ValueType::Int, d, 0, s1)
    };
    let mut r = Run::new(vec![
        mixed(Opcode::EQL, 3, 1),
        mixed(Opcode::NEQ, 4, 1),
        mixed(Opcode::EQL, 5, 2),
        mixed(Opcode::NEQ, 6, 2),
    ]);
    let (a, b) = (r.vm.boxed(num(1), Some(0)), r.vm.boxed(num(2), Some(0)));
    r.slots(vec![num(1), a, b, num(0), num(0), num(0), num(0)]);
    for _ in 0..4 {
        r.step();
    }
    let truths: Vec<Value> = (3..7).map(|i| r.slot(i)).collect();
    let wanted = [true, false, false, true];
    assert_eq!(truths, wanted.iter().map(|b| Value::Bool(*b)).collect::<Vec<Value>>());
}

#[test]
fn numbers_of_two_types_have_bits() {
    let mixed = |op, t0, t1, d, s0, s1| Instruction { t1, ..typed(op, t0, d, s0, s1) };
    let (int, uint, byte) = (ValueType::Int, ValueType::Uint, ValueType::Uint8);
    let mut r = Run::new(vec![
        mixed(Opcode::EQL, int, uint, 7, 0, 1),
        mixed(Opcode::NEQ, int, uint, 8, 0, 1),
        mixed(Opcode::NEQ, int, uint, 9, 2, 3),
        mixed(Opcode::LSS, int, uint, 10, 3, 0),
        mixed(Opcode::NEQ, int, uint, 11, 2, 1),
        mixed(Opcode::NEQ, byte, int, 12, 4, 5),
        mixed(Opcode::NEQ, int, byte, 13, 0, 6),
        mixed(Opcode::NEQ, int, ValueType::Float64, 14, 15, 16),
    ]);
    let mut slots = vec![num(0); 17];
    slots[0] = num(5);
    slots[1] = Value::Int(IntKind::Uint, 5);
    slots[2] = num(-1);
    slots[3] = Value::Int(IntKind::Uint, 0xffff_ffff_ffff_ffff);
    slots[4] = Value::Int(IntKind::Uint8, 5);
    slots[5] = num(0x105);
    slots[6] = Value::Int(IntKind::Uint8, 5);
    slots[16] = Value::Float64(0);
    r.slots(slots);
    for _ in 0..8 {
        r.step();
    }
    let truths: Vec<Value> = (7..15).map(|i| r.slot(i)).collect();
    let wanted = [false, false, false, true, true, false, true, false];
    assert_eq!(truths, wanted.iter().map(|b| Value::Bool(*b)).collect::<Vec<Value>>());
}

#[test]
fn text_comes_back_from_its_parts() {
    let cast = |to, elem, d, s0| Instruction {
        t1: if to == ValueType::String { ValueType::Slice } else { ValueType::String },
        op1_t: elem,
        ..typed(Opcode::CAST, to, d, s0, 0)
    };
    let mut r = Run::new(vec![
        cast(ValueType::Slice, ValueType::Int32, 1, 0),
        cast(ValueType::String, ValueType::Int32, 2, 1),
        cast(ValueType::Slice, ValueType::Uint8, 3, 0),
        cast(ValueType::String, ValueType::Uint8, 4, 3),
        cast(ValueType::String, ValueType::Int32, 5, 6),
    ]);
    let s = r.vm.add_text("aé!");
    let mut slots = vec![num(0); 7];
    slots[0] = s;
    slots[6] = Value::Nil(ValueType::Slice);
    r.slots(slots);
    for _ in 0..5 {
        r.step();
    }
    assert_eq!(r.text(r.slot(2)), "aé!");
    assert_eq!(r.text(r.slot(4)), "aé!");
    assert_eq!(r.text(r.slot(5)), "");
    match (r.slot(1), r.slot(3)) {
        (Value::Slice(chars), Value::Slice(bytes)) => {
            assert_eq!((chars.end - chars.begin, bytes.end - bytes.begin), (3, 4));
        }
        v => panic!("no slices: {:?}", v),
    }
}

#[test]
fn calculations_change_their_slot() {
    let shift = Instruction { t1: ValueType::Int, ..inst(Opcode::SHL_ASSIGN, 0, -8, 0) };
    let mut r = Run::new(vec![
        inst(Opcode::SUB_ASSIGN, 0, -8, 0),
        inst(Opcode::MUL_ASSIGN, 0, -8, 0),
        shift,
        inst(Opcode::DEC, 0, 0, 0),
        inst(Opcode::UNARY_SUB, 1, 0, 0),
        Instruction { t1: ValueType::Uint8, ..inst(Opcode::SHL, 0, 0, -8) },
    ]);
    r.slots(vec![num(12), num(0)]);
    for _ in 0..5 {
        r.step();
    }
    assert_eq!((r.slot(0), r.slot(1)), (num(79), num(-79)));
    // the count of a shift is of the type that the instruction names
    assert!(matches!(r.f.step(&r.p, &mut r.vm), Err(Trap::Fault)));
}

#[test]
fn values_of_different_types_are_compared_by_value() {
    let mixed = Instruction { t1: ValueType::Interface, ..inst(Opcode::EQL, 2, 0, 1) };
    let mut r = Run::new(vec![mixed]);
    let i = r.vm.boxed(num(4), Some(0));
    r.slots(vec![num(4), i, num(0)]);
    r.step();
    assert_eq!(r.slot(2), Value::Bool(true));
}

#[test]
fn jumps_go_where_their_condition_says() {
    let types = typed(Opcode::SWITCH, ValueType::Metadata, 5, -2, -2);
    for (i, slot, pc) in [
        (inst(Opcode::JUMP, 5, 0, 0), num(0), 6),
        (inst(Opcode::JUMP_IF, 5, 0, 0), Value::Bool(true), 6),
        (inst(Opcode::JUMP_IF, 5, 0, 0), Value::Bool(false), 1),
        (inst(Opcode::JUMP_IF_NOT, 5, 0, 0), Value::Bool(false), 6),
        (inst(Opcode::JUMP_IF_NOT, 5, 0, 0), Value::Bool(true), 1),
        (inst(Opcode::SWITCH, 5, 0, -8), num(2), 6),
        (inst(Opcode::SWITCH, 5, 0, -8), num(3), 1),
        (types, num(0), 6),
        (typed(Opcode::SWITCH, ValueType::Metadata, 5, -2, -3), num(0), 1),
        (inst(Opcode::IMPORT, 5, -5, 0), num(0), 1),
    ] {
        let mut r = Run::new(vec![i]);
        r.slots(vec![slot]);
        r.step();
        assert_eq!(r.pc(), pc);
    }
}

#[test]
fn arguments_are_packed_into_a_slice() {
    let mut r = Run::new(vec![inst(Opcode::PACK_VARIADIC, 0, 1, 3)]);
    r.slots(vec![num(0), num(5), num(6), num(7)]);
    r.step();
    assert_eq!(r.elems(r.slot(0)), vec![num(5), num(6)]);
    assert_eq!(r.slot(1), Value::Nil(ValueType::Void));
    assert_eq!(r.slot(3), num(7));
}

#[test]
fn methods_are_bound() {
    let mut r = Run::new(vec![
        inst(Opcode::BIND_METHOD, 1, 0, -7),
        inst(Opcode::BIND_I_METHOD, 2, 3, 0),
        inst(Opcode::BIND_I_METHOD, 2, 4, 0),
    ]);
    let i = r.vm.boxed(num(8), Some(0));
    r.slots(vec![num(4), num(0), num(0), i, Value::Nil(ValueType::Interface)]);
    r.step();
    r.step();
    assert_eq!((r.slot(1), r.slot(2)), (Value::Closure(0), Value::Closure(1)));
    assert_eq!(r.vm.closures[0], ClosureObj::Gos { func: 0, uvs: None, recv: Some(num(4)) });
    assert_eq!(r.vm.closures[1], ClosureObj::Gos { func: 0, uvs: None, recv: Some(num(8)) });
    assert_eq!(r.fail(), RuntimeError::NilAccess.message());
}

fn cast(to: ValueType, from: ValueType, elem: ValueType) -> Instruction {
    Instruction { t1: from, op1_t: elem, ..typed(Opcode::CAST, to, 1, 0, 0) }
}

#[test]
fn conversions_to_and_from_strings() {
    let string = ValueType::String;
    let slice = ValueType::Slice;
    let mut r = Run::new(vec![cast(slice, string, ValueType::Int32)]);
    let s = r.vm.add_text("né");
    r.slots(vec![s, num(0)]);
    r.step();
    let rune = |c: char| Value::Int(IntKind::Int32, c as i128);
    assert_eq!(r.elems(r.slot(1)), vec![rune('n'), rune('é')]);

    let mut r = Run::new(vec![cast(string, slice, ValueType::Int32)]);
    let runes = r.vm.slice_with_data(&vec![rune('n'), rune('é')]);
    r.slots(vec![runes, num(0)]);
    r.step();
    assert_eq!(r.text(r.slot(1)), "né");

    let mut r = Run::new(vec![cast(slice, string, ValueType::Uint8)]);
    let s = r.vm.add_text("hi");
    r.slots(vec![s, num(0)]);
    r.step();
    match (s, r.slot(1)) {
        (Value::Str(a), Value::Slice(b)) => assert_eq!(a, b),
        p => panic!("not shared: {:?}", p),
    }

    for (from, elem, v, text) in [
        (slice, ValueType::Uint8, Value::Nil(slice), ""),
        (slice, ValueType::Int32, Value::Nil(slice), ""),
        (ValueType::Int, ValueType::Void, num(0x20ac), "€"),
    ] {
        let mut r = Run::new(vec![cast(string, from, elem)]);
        r.slots(vec![v, num(0)]);
        r.step();
        assert_eq!(r.text(r.slot(1)), text);
    }
}

#[test]
fn conversion_to_an_interface_copies() {
    let mut r = Run::new(vec![cast(ValueType::Interface, ValueType::Struct, ValueType::Void)]);
    let s = Value::Struct(r.vm.new_cells(&vec![num(1)]));
    r.slots(vec![s, num(0)]);
    r.step();
    match r.slot(1) {
        Value::Interface(InterfaceObj::Gos { under, binding: Some(0) }) => {
            let t = r.vm.cells[under];
            assert_ne!(s, t);
            assert_eq!(r.vm.equal(&r.p, s, t), Ok(true));
        }
        v => panic!("no interface: {:?}", v),
    }
}

#[test]
fn conversions_of_words_and_pointers() {
    let mut r = Run::new(vec![cast(ValueType::Uint8, ValueType::Int, ValueType::Void)]);
    r.slots(vec![num(257), num(0)]);
    r.step();
    assert_eq!(r.slot(1), Value::Int(IntKind::Uint8, 1));
    let ptr = Value::Pointer(PointerObj::UpVal(3));
    let mut r = Run::new(vec![cast(ValueType::Pointer, ValueType::Pointer, ValueType::Void)]);
    r.slots(vec![ptr, num(0)]);
    r.step();
    assert_eq!(r.slot(1), ptr);
    let nil = Value::Nil(ValueType::Pointer);
    let mut r = Run::new(vec![cast(ValueType::UnsafePtr, ValueType::Pointer, ValueType::Void)]);
    r.slots(vec![nil, num(0)]);
    r.step();
    assert_eq!(r.slot(1), Value::Nil(ValueType::UnsafePtr));
}

#[test]
fn types_of_interfaces_are_asked_for() {
    let ok = Instruction { t1: ValueType::FlagB, ..inst(Opcode::TYPE_ASSERT, 1, 0, -2) };
    let mut r = Run::new(vec![
        ok,
        inst(Opcode::VOID, 2, 0, 0),
        Instruction { t1: ValueType::FlagB, ..inst(Opcode::TYPE_ASSERT, 1, 0, -3) },
        inst(Opcode::VOID, 2, 0, 0),
        inst(Opcode::TYPE_ASSERT, 3, 4, -2),
    ]);
    let i = r.vm.boxed(num(4), Some(0));
    r.slots(vec![i, num(0), num(0), num(0), Value::Nil(ValueType::Interface)]);
    r.step();
    assert_eq!((r.slot(1), r.slot(2), r.pc()), (num(4), Value::Bool(true), 2));
    r.step();
    assert_eq!((r.text(r.slot(1)).as_str(), r.slot(2)), ("", Value::Bool(false)));
    assert_eq!(r.fail(), RuntimeError::NilAccess.message());
}

#[test]
fn dynamic_types_of_interfaces() {
    let mut r = Run::new(vec![
        inst(Opcode::TYPE, 1, 0, 0),
        typed(Opcode::TYPE, ValueType::FlagA, 2, 0, 3),
        typed(Opcode::TYPE, ValueType::FlagA, 2, 4, 3),
    ]);
    let i = r.vm.boxed(num(4), Some(0));
    let nil = Value::Nil(ValueType::Interface);
    r.slots(vec![i, num(0), num(0), num(0), nil]);
    r.step();
    assert_eq!(r.slot(1), Value::Metadata(meta(0)));
    r.step();
    assert_eq!((r.slot(2), r.slot(3)), (Value::Metadata(meta(0)), num(4)));
    r.step();
    assert_eq!((r.slot(2), r.slot(3)), (Value::Metadata(meta(4)), nil));
}

#[test]
fn parts_are_taken() {
    let all = num(-1);
    let mut r = Run::new(vec![
        typed(Opcode::SLICE, ValueType::Slice, 1, 0, -1),
        inst(Opcode::VOID, 0, 2, 2),
        typed(Opcode::SLICE, ValueType::Slice, 1, 0, 3),
        inst(Opcode::VOID, 0, 2, 2),
    ]);
    let s = r.vm.slice_with_data(&vec![num(5), num(6), num(7)]);
    r.slots(vec![s, num(0), all, num(4)]);
    r.step();
    assert_eq!(r.elems(r.slot(1)), vec![num(6), num(7)]);
    assert_eq!(r.fail(), RuntimeError::SliceOutOfRange.message());
}

#[test]
fn new_values_are_zero() {
    let mut r = Run::new(vec![
        inst(Opcode::NEW, 0, -4, 0),
        inst(Opcode::LOAD_POINTER, 1, 0, 0),
        inst(Opcode::LOAD_STRUCT, 2, 1, 1),
        typed(Opcode::MAKE, ValueType::FlagB, 3, -6, -8),
        typed(Opcode::MAKE, ValueType::FlagC, 4, -6, -8),
        inst(Opcode::VOID, 0, -1, 0),
        inst(Opcode::LEN, 5, 4, 0),
        inst(Opcode::CAP, 6, 4, 0),
    ]);
    r.slots(vec![num(9); 7]);
    for _ in 0..7 {
        r.step();
    }
    assert_eq!(r.slot(2), num(0));
    assert_eq!(r.elems(r.slot(3)), vec![num(0), num(0)]);
    assert_eq!((r.slot(5), r.slot(6)), (num(1), num(2)));
}

#[test]
fn complex_numbers_have_two_parts() {
    let float = |x: f64| Value::Float64(x.to_bits());
    let mut r = Run::new(vec![
        typed(Opcode::COMPLEX, ValueType::Float64, 2, 0, 1),
        typed(Opcode::REAL, ValueType::Complex128, 3, 2, 0),
        typed(Opcode::IMAG, ValueType::Complex128, 4, 2, 0),
    ]);
    r.slots(vec![float(1.5), float(-2.0), num(0), num(0), num(0)]);
    for _ in 0..3 {
        r.step();
    }
    assert_eq!((r.slot(3), r.slot(4)), (float(1.5), float(-2.0)));
    let mut r = Run::new(vec![typed(Opcode::COMPLEX, ValueType::Float32, 2, 0, 1)]);
    r.slots(vec![Value::Float32(1), Value::Float32(2), num(0)]);
    r.step();
    assert_eq!(r.slot(2), Value::Complex64(1, 2));
}

#[test]
fn elements_are_appended_and_copied() {
    let text = typed(Opcode::APPEND, ValueType::String, 4, 3, 2);
    let mut r = Run::new(vec![
        inst(Opcode::APPEND, 3, 0, 1),
        inst(Opcode::COPY, 5, 0, 1),
        Instruction { s0: 6, ..text },
        inst(Opcode::LEN, 5, 4, 0),
    ]);
    let a = r.vm.slice_with_data(&vec![num(1), num(2)]);
    let b = r.vm.slice_with_data(&vec![num(3)]);
    let s = r.vm.add_text("xyz");
    let nil = Value::Nil(ValueType::Slice);
    r.slots(vec![a, b, s, num(0), num(0), num(0), nil]);
    r.step();
    assert_eq!(r.elems(r.slot(3)), vec![num(1), num(2), num(3)]);
    r.step();
    assert_eq!(r.slot(5), num(1));
    assert_eq!(r.elems(a), vec![num(3), num(2)]);
    r.step();
    r.step();
    assert_eq!(r.slot(5), num(3));
}

#[test]
fn struct_literals_name_their_fields() {
    let uint = |n| Value::Int(IntKind::Uint, n);
    let mut r = Run::new(vec![
        inst(Opcode::LITERAL, 0, 1, 1),
        inst(Opcode::VOID, 0, -4, 0),
        inst(Opcode::LOAD_STRUCT, 3, 0, 0),
        inst(Opcode::LOAD_STRUCT, 4, 0, 1),
    ]);
    r.slots(vec![num(0), uint(1), num(8), num(5), num(5)]);
    for _ in 0..3 {
        r.step();
    }
    assert_eq!((r.slot(3), r.slot(4)), (num(0), num(8)));
}
