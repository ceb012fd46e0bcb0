//! What fibers ask the host for, and what they make of the answers.
use go_vm::bytecode::{
    Bytecode, FieldInfo, FunctionObj, Instruction, MetadataType, Opcode,
};
use go_vm::effect::{Ask, Query};
use go_vm::fiber::{Fiber, SelectCommType, Step};
use go_vm::machine::{ClosureObj, UpValueState, Vm};
use go_vm::num::FloatTask;
use go_vm::reply::Reply;
use go_vm::run::start;
use go_vm::trap::Trap;
use go_vm::value::{
    IntKind, InterfaceObj, Meta, MetaCategory, PointerObj, UnsafePtr, Value, ValueType,
};

fn inst(op0: Opcode, d: i32, s0: i32, s1: i32) -> Instruction {
    Instruction {
        op0,
        op1: Opcode::VOID,
        op1_t: ValueType::Void,
        t0: ValueType::Int,
        t1: ValueType::Int,
        d,
        s0,
        s1,
    }
}

fn typed(op0: Opcode, t0: ValueType, d: i32, s0: i32, s1: i32) -> Instruction {
    Instruction { t0, ..inst(op0, d, s0, s1) }
}

fn num(n: i128) -> Value {
    Value::Int(IntKind::Int, n)
}

fn float(x: f64) -> Value {
    Value::Float64(x.to_bits())
}

fn meta(key: usize) -> Meta {
    Meta { key, category: MetaCategory::Default, ptr_depth: 0 }
}

// types: 0 int, 1 chan int, 2 interface { go }, 3 func(int, int) int, 4 a name for 2
fn program(mut code: Vec<Instruction>, consts: Vec<Value>) -> Bytecode {
    code.push(typed(Opcode::RETURN, ValueType::FlagA, 0, 0, 0));
    Bytecode {
        functions: vec![FunctionObj {
            code,
            param_count: 0,
            ret_zeros: vec![],
            local_zeros: vec![num(0); 12],
            up_ptrs: vec![],
            max_write_index: 16,
        }],
        metas: vec![
            MetadataType::Basic(ValueType::Int),
            MetadataType::Channel(0, meta(0)),
            MetadataType::Interface(vec![FieldInfo { name: b"go".to_vec(), meta: meta(3) }]),
            MetadataType::Signature { params: vec![meta(0), meta(0)], results: vec![meta(0)] },
            MetadataType::Named(meta(2)),
        ],
        packages: vec![],
        consts,
        ifaces: vec![],
        indices: vec![],
        none_meta: meta(0),
        entry: 0,
    }
}

fn ask(f: &mut Fiber, p: &Bytecode, vm: &mut Vm) -> Ask {
    match f.main_loop(p, vm).unwrap() {
        Step::Ask(a) => a,
        Step::End => panic!("the fiber is finished"),
        _ => panic!("the host is not asked"),
    }
}

fn end(f: &mut Fiber, p: &Bytecode, vm: &mut Vm) {
    assert!(matches!(f.main_loop(p, vm), Ok(Step::End)));
}

fn text_of(vm: &Vm, v: Value) -> String {
    match v {
        Value::Interface(InterfaceObj::Gos { under, .. }) => text_of(vm, vm.cells[under]),
        Value::Str(s) => String::from_utf8(vm.get_bytes(s).unwrap()).unwrap(),
        v => panic!("no string: {:?}", v),
    }
}

#[test]
fn fractions_are_calculated_by_the_host() {
    let (a, b) = (float(1.5), float(2.0));
    let t = ValueType::Float64;
    let code = vec![typed(Opcode::MUL, t, 0, -1, -2), inst(Opcode::JUMP, 0, 0, 0)];
    let p = program(code, vec![a, b]);
    let mut vm = Vm::new(0);
    let mut f = start(&p, &mut vm, false).unwrap();
    let op = Opcode::MUL;
    let task = FloatTask::Binary { op, t, a, b };
    assert_eq!(ask(&mut f, &p, &mut vm), Ask::Query(Query::Float(task)));
    // it waits, and does not run
    assert!(matches!(f.main_loop(&p, &mut vm), Err(Trap::Fault)));
    assert!(matches!(f.resume(&p, &mut vm, Reply::Value(float(3.0))), Ok(Step::Next)));
    assert_eq!(vm.get(0, 0), Ok(float(3.0)));
    // there is no second answer
    assert!(matches!(f.resume(&p, &mut vm, Reply::Value(float(4.0))), Err(Trap::Fault)));
    end(&mut f, &p, &mut vm);
}

#[test]
fn answer_of_another_type_is_a_fault() {
    let code = vec![typed(Opcode::INC, ValueType::Float64, 0, 0, 0)];
    let p = program(code, vec![]);
    for reply in [Reply::Value(num(1)), Reply::Sent, Reply::Received(None), Reply::Created(0)] {
        let mut vm = Vm::new(0);
        let mut f = start(&p, &mut vm, false).unwrap();
        f.started = true;
        vm.set_vec(0, 0, &vec![float(1.0)]).unwrap();
        ask(&mut f, &p, &mut vm);
        assert!(matches!(f.resume(&p, &mut vm, reply), Err(Trap::Fault)));
    }
}

#[test]
fn fractions_become_characters() {
    let from = ValueType::Float64;
    let cast = Instruction { t1: from, ..typed(Opcode::CAST, ValueType::String, 2, -1, 0) };
    let p = program(vec![cast], vec![float(8364.9)]);
    let uint = |n| Reply::Value(Value::Int(IntKind::Uint32, n));
    let mut vm = Vm::new(0);
    let mut f = start(&p, &mut vm, false).unwrap();
    let task = FloatTask::Cast { from, to: ValueType::Uint32, a: float(8364.9) };
    assert_eq!(ask(&mut f, &p, &mut vm), Ask::Query(Query::Float(task)));
    assert!(matches!(f.resume(&p, &mut vm, uint(8364)), Ok(Step::Next)));
    assert_eq!(text_of(&vm, vm.get(0, 2).unwrap()), "\u{20ac}");
    end(&mut f, &p, &mut vm);
    // no character has the number, or it is of another type
    for reply in [uint(0xd800), uint(0x11_0000), Reply::Value(num(65)), Reply::Sent] {
        let mut vm = Vm::new(0);
        let mut f = start(&p, &mut vm, false).unwrap();
        ask(&mut f, &p, &mut vm);
        assert!(matches!(f.resume(&p, &mut vm, reply), Err(Trap::Fault)));
    }
}

#[test]
fn fractions_count_places() {
    let from = ValueType::Float32;
    let by = Value::Float32(2.5f32.to_bits());
    let int8 = Value::Int(IntKind::Int8, 96);
    let shift = |op, d, s0, s1| Instruction { t1: from, ..typed(op, ValueType::Int8, d, s0, s1) };
    let code = vec![shift(Opcode::SHL, 1, -1, -2), shift(Opcode::SHR_ASSIGN, 1, -2, 0)];
    let p = program(code, vec![int8, by]);
    let two = || Reply::Value(Value::Int(IntKind::Uint32, 2));
    let mut vm = Vm::new(0);
    let mut f = start(&p, &mut vm, false).unwrap();
    let task = FloatTask::Cast { from, to: ValueType::Uint32, a: by };
    assert_eq!(ask(&mut f, &p, &mut vm), Ask::Query(Query::Float(task)));
    assert!(matches!(f.resume(&p, &mut vm, two()), Ok(Step::Next)));
    assert_eq!(vm.get(0, 1), Ok(Value::Int(IntKind::Int8, -128)));
    assert_eq!(ask(&mut f, &p, &mut vm), Ask::Query(Query::Float(task)));
    assert!(matches!(f.resume(&p, &mut vm, two()), Ok(Step::Next)));
    assert_eq!(vm.get(0, 1), Ok(Value::Int(IntKind::Int8, -32)));
    end(&mut f, &p, &mut vm);
    let mut f = start(&p, &mut vm, false).unwrap();
    ask(&mut f, &p, &mut vm);
    assert!(matches!(f.resume(&p, &mut vm, Reply::Value(num(2))), Err(Trap::Fault)));
}

#[test]
fn store_waits_for_the_calculation() {
    let store = Instruction { op1: Opcode::ADD, ..typed(Opcode::STORE_POINTER, ValueType::Float64, 0, -1, 0) };
    let p = program(vec![store], vec![float(0.5)]);
    let mut vm = Vm::new(0);
    let id = vm.new_upval(UpValueState::Closed(float(1.0)));
    let mut f = start(&p, &mut vm, false).unwrap();
    f.started = true;
    vm.set_vec(0, 0, &vec![Value::Pointer(PointerObj::UpVal(id))]).unwrap();
    ask(&mut f, &p, &mut vm);
    assert_eq!(vm.get_upvalue(id), Ok(float(1.0)));
    f.resume(&p, &mut vm, Reply::Value(float(1.5))).unwrap();
    assert_eq!(vm.get_upvalue(id), Ok(float(1.5)));
}

#[test]
fn untyped_pointers_have_addresses() {
    let cast = Instruction {
        t1: ValueType::UnsafePtr,
        ..typed(Opcode::CAST, ValueType::UintPtr, 1, 0, 0)
    };
    let p = program(vec![cast], vec![]);
    let ptr = PointerObj::UpVal(0);
    let mut vm = Vm::new(0);
    let mut f = start(&p, &mut vm, false).unwrap();
    f.started = true;
    vm.set_vec(0, 0, &vec![Value::UnsafePtr(UnsafePtr::Handle(ptr)), num(0)]).unwrap();
    let query = Query::Address(UnsafePtr::Handle(ptr));
    assert_eq!(ask(&mut f, &p, &mut vm), Ask::Query(query));
    let address = Value::Int(IntKind::UintPtr, 4096);
    f.resume(&p, &mut vm, Reply::Value(address)).unwrap();
    assert_eq!(vm.get(0, 1), Ok(address));
    // that of nil is zero
    let mut vm = Vm::new(0);
    let mut f = start(&p, &mut vm, false).unwrap();
    f.started = true;
    vm.set_vec(0, 0, &vec![Value::Nil(ValueType::UnsafePtr), num(0)]).unwrap();
    f.step(&p, &mut vm).unwrap();
    assert_eq!(vm.get(0, 1), Ok(Value::Int(IntKind::UintPtr, 0)));
}

fn pointer_cast(v: Value) -> (Result<Step, Trap>, Vm, Fiber) {
    let cast = Instruction {
        t1: ValueType::UnsafePtr,
        op1_t: ValueType::Int,
        ..typed(Opcode::CAST, ValueType::Pointer, 1, 0, 0)
    };
    let p = program(vec![cast], vec![]);
    let mut vm = Vm::new(0);
    vm.new_upval(UpValueState::Closed(num(3)));
    vm.new_upval(UpValueState::Closed(Value::Bool(true)));
    let mut f = start(&p, &mut vm, false).unwrap();
    f.started = true;
    vm.set_vec(0, 0, &vec![v, num(0)]).unwrap();
    let r = f.step(&p, &mut vm);
    (r, vm, f)
}

#[test]
fn untyped_pointers_become_pointers_again() {
    let ptr = PointerObj::UpVal(0);
    let (_, vm, _) = pointer_cast(Value::UnsafePtr(UnsafePtr::Handle(ptr)));
    assert_eq!(vm.get(0, 1), Ok(Value::Pointer(ptr)));
    let (_, vm, _) = pointer_cast(Value::Nil(ValueType::UnsafePtr));
    assert_eq!(vm.get(0, 1), Ok(Value::Nil(ValueType::Pointer)));
    let (_, vm, f) = pointer_cast(Value::UnsafePtr(UnsafePtr::Foreign(77)));
    assert_eq!(
        text_of(&vm, f.panic.unwrap().msg),
        "only a unsafe-pointer cast from a pointer can be cast back to a pointer"
    );
    let other = PointerObj::UpVal(1);
    let (_, vm, f) = pointer_cast(Value::UnsafePtr(UnsafePtr::Handle(other)));
    assert_eq!(
        text_of(&vm, f.panic.unwrap().msg),
        "the pointer does not point to a value of the wanted type"
    );
}

fn with_channel(code: Vec<Instruction>) -> (Bytecode, Vm, Fiber) {
    let mut all = vec![typed(Opcode::MAKE, ValueType::FlagB, 0, -1, -2)];
    all.extend(code);
    let p = program(all, vec![Value::Metadata(meta(1)), num(3), num(8)]);
    let mut vm = Vm::new(0);
    let mut f = start(&p, &mut vm, true).unwrap();
    vm.set_vec(0, 0, &vec![num(0); 12]).unwrap();
    f.started = true;
    f.step(&p, &mut vm).unwrap();
    assert_eq!(vm.get(0, 0), Ok(Value::Channel(0)));
    assert_eq!(vm.chans[0].cap, 3);
    (p, vm, f)
}

#[test]
fn channels_send_and_receive() {
    let recv = Instruction { t1: ValueType::FlagB, ..inst(Opcode::RECV, 1, 0, 2) };
    let (p, mut vm, mut f) = with_channel(vec![
        inst(Opcode::SEND, 0, 0, -3),
        recv,
        recv,
        inst(Opcode::LEN, 3, 0, 0),
        inst(Opcode::CAP, 4, 0, 0),
        inst(Opcode::CLOSE, 0, 0, 0),
    ]);
    assert_eq!(ask(&mut f, &p, &mut vm), Ask::Send { chan: 0, val: num(8) });
    f.resume(&p, &mut vm, Reply::Sent).unwrap();
    assert_eq!(ask(&mut f, &p, &mut vm), Ask::Recv { chan: 0 });
    f.resume(&p, &mut vm, Reply::Received(Some(num(8)))).unwrap();
    assert_eq!((vm.get(0, 1), vm.get(0, 2)), (Ok(num(8)), Ok(Value::Bool(true))));
    ask(&mut f, &p, &mut vm);
    f.resume(&p, &mut vm, Reply::Received(None)).unwrap();
    assert_eq!((vm.get(0, 1), vm.get(0, 2)), (Ok(num(0)), Ok(Value::Bool(false))));
    assert_eq!(ask(&mut f, &p, &mut vm), Ask::Query(Query::ChanLen(0)));
    f.resume(&p, &mut vm, Reply::Value(num(2))).unwrap();
    assert_eq!(vm.get(0, 3), Ok(num(2)));
    // the capacity is known; to close needs no answer
    assert_eq!(ask(&mut f, &p, &mut vm), Ask::Close { chan: 0 });
    assert_eq!(vm.get(0, 4), Ok(num(3)));
    end(&mut f, &p, &mut vm);
}

#[test]
fn failed_send_is_a_panic() {
    let (p, mut vm, mut f) = with_channel(vec![inst(Opcode::SEND, 0, 0, -3)]);
    ask(&mut f, &p, &mut vm);
    f.resume(&p, &mut vm, Reply::Failed("channel closed".to_string())).unwrap();
    end(&mut f, &p, &mut vm);
    let data = vm.take_panic().unwrap();
    assert_eq!(text_of(&vm, data.msg), "channel closed");
    assert_eq!(data.call_stack, vec![(0, 1)]);
}

#[test]
fn nil_channels_block_forever() {
    for op in [Opcode::SEND, Opcode::RECV] {
        let p = program(vec![inst(op, 1, -1, -2)], vec![Value::Nil(ValueType::Channel), num(1)]);
        let mut vm = Vm::new(0);
        let mut f = start(&p, &mut vm, true).unwrap();
        assert_eq!(ask(&mut f, &p, &mut vm), Ask::Block);
        assert!(matches!(f.resume(&p, &mut vm, Reply::Sent), Err(Trap::Fault)));
    }
    let p = program(vec![inst(Opcode::CLOSE, 0, -1, 0)], vec![Value::Nil(ValueType::Channel)]);
    let mut vm = Vm::new(0);
    let mut f = start(&p, &mut vm, true).unwrap();
    end(&mut f, &p, &mut vm);
}

#[test]
fn communication_needs_a_scheduler() {
    let make = typed(Opcode::MAKE, ValueType::FlagA, 0, -2, 0);
    for op in [
        inst(Opcode::SEND, 0, -1, -1),
        inst(Opcode::RECV, 0, -1, 0),
        inst(Opcode::SELECT, 0, 0, 0),
        inst(Opcode::CLOSE, 0, -1, 0),
        make,
    ] {
        let consts = vec![Value::Nil(ValueType::Channel), Value::Metadata(meta(1))];
        let p = program(vec![op], consts);
        let mut vm = Vm::new(0);
        let mut f = start(&p, &mut vm, false).unwrap();
        end(&mut f, &p, &mut vm);
        let data = vm.take_panic().unwrap();
        assert_eq!(text_of(&vm, data.msg), "Async features disabled");
        assert_eq!(data.call_stack, vec![(0, 0)]);
    }
    // what could not be made is cleared
    let p = program(vec![make, inst(Opcode::JUMP, 0, 0, 0)], vec![num(0), Value::Metadata(meta(1))]);
    let mut vm = Vm::new(0);
    let mut f = start(&p, &mut vm, false).unwrap();
    f.started = true;
    vm.set_vec(0, 0, &vec![num(5)]).unwrap();
    f.step(&p, &mut vm).unwrap();
    assert_eq!(vm.get(0, 0), Ok(Value::Nil(ValueType::Void)));
}

fn selecting(has_default: bool) -> (Bytecode, Vm, Fiber) {
    let flag = if has_default { ValueType::FlagE } else { ValueType::FlagA };
    with_channel(vec![
        typed(Opcode::SELECT, flag, 40, 3, 0),
        typed(Opcode::SEND, ValueType::FlagA, 10, 0, -3),
        typed(Opcode::RECV, ValueType::FlagD, 20, 0, 5),
        typed(Opcode::RECV, ValueType::FlagB, 30, 0, 7),
        inst(Opcode::JUMP, 0, 0, 0),
    ])
}

#[test]
fn select_goes_to_the_communication_that_was_done() {
    let after = 5;
    let (p, mut vm, mut f) = selecting(true);
    assert_eq!(ask(&mut f, &p, &mut vm), Ask::Select { has_default: true });
    assert_eq!(f.comms.len(), 3);
    assert_eq!(f.comms[0].typ, SelectCommType::Send(num(8)));
    assert_eq!(f.comms[1].typ, SelectCommType::Recv(ValueType::FlagD, 5));
    assert_eq!(f.comms[1].chan, Value::Channel(0));
    f.resume(&p, &mut vm, Reply::Selected(0, None)).unwrap();
    assert_eq!(f.frames[0].pc, after + 10);

    let (p, mut vm, mut f) = selecting(true);
    ask(&mut f, &p, &mut vm);
    f.resume(&p, &mut vm, Reply::Selected(1, Some(num(6)))).unwrap();
    assert_eq!(f.frames[0].pc, after + 20);
    assert_eq!((vm.get(0, 5), vm.get(0, 6)), (Ok(num(6)), Ok(Value::Bool(true))));

    let (p, mut vm, mut f) = selecting(true);
    ask(&mut f, &p, &mut vm);
    f.resume(&p, &mut vm, Reply::Selected(2, None)).unwrap();
    assert_eq!(f.frames[0].pc, after + 30);
    assert_eq!(vm.get(0, 7), Ok(num(0)));

    let (p, mut vm, mut f) = selecting(true);
    ask(&mut f, &p, &mut vm);
    f.resume(&p, &mut vm, Reply::Selected(3, None)).unwrap();
    assert_eq!(f.frames[0].pc, after + 40);
}

#[test]
fn select_without_default_has_none() {
    let (p, mut vm, mut f) = selecting(false);
    assert_eq!(ask(&mut f, &p, &mut vm), Ask::Select { has_default: false });
    assert!(matches!(f.resume(&p, &mut vm, Reply::Selected(3, None)), Err(Trap::Fault)));
    let (p, mut vm, mut f) = selecting(false);
    ask(&mut f, &p, &mut vm);
    f.resume(&p, &mut vm, Reply::Failed("gone".to_string())).unwrap();
    assert_eq!(text_of(&vm, f.panic.unwrap().msg), "gone");
}

#[test]
fn host_makes_objects_by_name() {
    let code = vec![inst(Opcode::FFI, 0, -1, 1), inst(Opcode::JUMP, 0, 0, 0)];
    let p = program(code, vec![Value::Metadata(meta(4))]);
    let mut vm = Vm::new(0);
    let name = vm.add_text("os");
    let mut f = start(&p, &mut vm, false).unwrap();
    f.started = true;
    vm.set_vec(0, 0, &vec![num(0), name]).unwrap();
    match ask(&mut f, &p, &mut vm) {
        Ask::FfiCreate { name } => assert_eq!(vm.get_bytes(name).unwrap(), b"os".to_vec()),
        a => panic!("another question: {:?}", a),
    }
    f.resume(&p, &mut vm, Reply::Created(9)).unwrap();
    assert_eq!(
        vm.get(0, 0),
        Ok(Value::Interface(InterfaceObj::Ffi { ffi: 9, meta: meta(2) }))
    );

    let mut vm = Vm::new(0);
    let name = vm.add_text("os");
    let mut f = start(&p, &mut vm, false).unwrap();
    f.started = true;
    vm.set_vec(0, 0, &vec![num(0), name]).unwrap();
    ask(&mut f, &p, &mut vm);
    f.resume(&p, &mut vm, Reply::Failed("no such thing".to_string())).unwrap();
    assert_eq!(text_of(&vm, f.panic.unwrap().msg), "no such thing");
}

fn calling(is_async: bool, async_enabled: bool) -> (Bytecode, Vm, Fiber) {
    let p = program(
        vec![
            typed(Opcode::CALL, ValueType::FlagA, 0, 4, 0),
            inst(Opcode::JUMP, 0, 0, 0),
        ],
        vec![],
    );
    let mut vm = Vm::new(0);
    let cls = vm.add_closure(ClosureObj::Ffi { ffi: 2, iface: 2, index: 0, meta: meta(3), is_async });
    let mut f = start(&p, &mut vm, async_enabled).unwrap();
    f.started = true;
    // one result, the receiver, two arguments
    let slots = vec![cls, num(0), num(0), num(0), num(0), num(0), num(5), num(6)];
    vm.set_vec(0, 0, &slots).unwrap();
    (p, vm, f)
}

#[test]
fn methods_of_the_host_are_called() {
    let (p, mut vm, mut f) = calling(false, false);
    assert_eq!(
        ask(&mut f, &p, &mut vm),
        Ask::FfiCall { ffi: 2, iface: 2, index: 0, is_async: false }
    );
    assert_eq!(f.args, vec![num(5), num(6)]);
    assert_eq!(vm.get(0, 6), Ok(Value::Nil(ValueType::Void)));
    f.resume(&p, &mut vm, Reply::Returned(vec![num(11)])).unwrap();
    assert_eq!(vm.get(0, 4), Ok(num(11)));

    let (p, mut vm, mut f) = calling(true, true);
    assert_eq!(
        ask(&mut f, &p, &mut vm),
        Ask::FfiCall { ffi: 2, iface: 2, index: 0, is_async: true }
    );
    f.resume(&p, &mut vm, Reply::Failed("bad call".to_string())).unwrap();
    assert_eq!(text_of(&vm, f.panic.unwrap().msg), "bad call");

    let (p, mut vm, mut f) = calling(true, false);
    assert!(matches!(f.step(&p, &mut vm), Ok(Step::Next)));
    assert_eq!(text_of(&vm, f.panic.unwrap().msg), "Async features disabled");
}
