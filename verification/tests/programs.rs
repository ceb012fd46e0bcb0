//! Small programs, run from their first instruction to their end.
use go_vm::bytecode::{
    Bytecode, FunctionObj, Instruction, MetadataType, Opcode, PackageObj, ValueDesc,
};
use go_vm::fiber::{Fiber, Step, YIELD_UNIT};
use go_vm::machine::{ClosureObj, UpValueState, Vm};
use go_vm::panic::PanicData;
use go_vm::run::start;
use go_vm::trap::Trap;
use go_vm::value::{
    InterfaceObj, IntKind, Meta, MetaCategory, PointerObj, Region, SliceRef, Value, ValueType,
};

fn inst(op0: Opcode, d: i32, s0: i32, s1: i32) -> Instruction {
    Instruction {
        op0,
        op1: Opcode::VOID,
        op1_t: ValueType::Void,
        t0: ValueType::Int,
        t1: ValueType::Int,
        d,
        s0,
        s1,
    }
}

fn typed(op0: Opcode, t0: ValueType, d: i32, s0: i32, s1: i32) -> Instruction {
    Instruction { t0, ..inst(op0, d, s0, s1) }
}

fn ret(t0: ValueType) -> Instruction {
    typed(Opcode::RETURN, t0, 0, 0, 0)
}

fn call(style: ValueType, closure: i32, base: i32) -> Instruction {
    typed(Opcode::CALL, style, closure, base, 0)
}

fn num(n: i128) -> Value {
    Value::Int(IntKind::Int, n)
}

fn num32(n: i128) -> Value {
    Value::Int(IntKind::Int32, n)
}

fn basic(key: usize) -> Meta {
    Meta { key, category: MetaCategory::Default, ptr_depth: 0 }
}

fn function(code: Vec<Instruction>, rets: usize, params: i32, locals: usize) -> FunctionObj {
    FunctionObj {
        code,
        param_count: params,
        ret_zeros: vec![num(0); rets],
        local_zeros: vec![num(0); locals],
        up_ptrs: vec![],
        max_write_index: 8,
    }
}

fn program(functions: Vec<FunctionObj>, consts: Vec<Value>) -> Bytecode {
    Bytecode {
        functions,
        metas: vec![
            MetadataType::Basic(ValueType::Int),
            MetadataType::Slice(basic(0)),
            MetadataType::GoMap(basic(0), basic(0)),
        ],
        packages: vec![],
        consts,
        ifaces: vec![],
        indices: vec![],
        none_meta: basic(0),
        entry: 0,
    }
}

fn finish(p: &Bytecode, vm: &mut Vm, mut f: Fiber) -> Fiber {
    loop {
        match f.main_loop(p, vm).unwrap() {
            Step::End => return f,
            Step::Yield => {}
            _ => panic!("the program asks for the host"),
        }
    }
}

fn run_to_end(p: &Bytecode, vm: &mut Vm) -> Option<PanicData> {
    let f = start(p, vm, false).unwrap();
    finish(p, vm, f);
    vm.take_panic()
}

fn panic_text(vm: &Vm, data: &PanicData) -> String {
    match data.msg {
        Value::Interface(InterfaceObj::Gos { under, binding: None }) => match vm.cells[under] {
            Value::Str(s) => String::from_utf8(vm.get_bytes(s).unwrap()).unwrap(),
            v => panic!("no text: {:?}", v),
        },
        v => panic!("no interface: {:?}", v),
    }
}

#[test]
fn adds_up_in_a_loop() {
    let consts = vec![num(0), num(10), num(55)];
    let code = vec![
        inst(Opcode::DUPLICATE, 0, -1, 0),
        inst(Opcode::DUPLICATE, 1, -1, 0),
        inst(Opcode::INC, 1, 0, 0),
        inst(Opcode::ADD_ASSIGN, 0, 1, 0),
        inst(Opcode::LSS, 2, 1, -2),
        inst(Opcode::JUMP_IF, -4, 2, 0),
        inst(Opcode::EQL, 2, 0, -3),
        inst(Opcode::ASSERT, 0, 2, 0),
        ret(ValueType::FlagA),
    ];
    let p = program(vec![function(code, 0, 0, 3)], consts);
    let mut vm = Vm::new(0);
    let f = start(&p, &mut vm, false).unwrap();
    let f = finish(&p, &mut vm, f);
    assert!(vm.take_panic().is_none());
    assert_eq!(f.total_inst, 2 + 4 * 10 + 3);
}

#[test]
fn call_leaves_results_and_returns_to_caller() {
    let consts = vec![num(3), num(4), num(7), Value::Function(1)];
    let main = vec![
        inst(Opcode::CLOSURE, 0, -4, 0),
        inst(Opcode::DUPLICATE, 5, -1, 0),
        inst(Opcode::DUPLICATE, 6, -2, 0),
        call(ValueType::FlagA, 0, 4),
        inst(Opcode::EQL, 1, 4, -3),
        inst(Opcode::ASSERT, 0, 1, 0),
        ret(ValueType::FlagA),
    ];
    let sum = vec![inst(Opcode::ADD, 0, 1, 2), ret(ValueType::FlagA)];
    let p = program(vec![function(main, 0, 0, 4), function(sum, 1, 2, 0)], consts);
    let mut vm = Vm::new(0);
    let mut f = start(&p, &mut vm, false).unwrap();
    // the four instructions up to the call
    vm.set_vec(0, 0, &vec![num(0); 4]).unwrap();
    f.started = true;
    for _ in 0..4 {
        assert!(matches!(f.step(&p, &mut vm), Ok(Step::Next)));
    }
    assert_eq!(f.frames.len(), 2);
    assert_eq!(f.frames[1].stack_base, 4);
    assert_eq!(vm.get(0, 5), Ok(num(3)));
    // the call and its return
    for _ in 0..2 {
        assert!(matches!(f.step(&p, &mut vm), Ok(Step::Next)));
    }
    assert_eq!(f.frames.len(), 1);
    assert_eq!(f.frames[0].pc, 4);
    assert_eq!(vm.get(0, 4), Ok(num(7)));
    assert_eq!(vm.get(0, 5), Ok(Value::Nil(ValueType::Void)));
    assert_eq!(vm.get(0, 6), Ok(Value::Nil(ValueType::Void)));
    finish(&p, &mut vm, f);
    assert!(vm.take_panic().is_none());
}

#[test]
fn recursion_computes_a_factorial() {
    // slot 0: result, slot 1: n
    let consts = vec![num(1), Value::Function(1), num(5), num(120)];
    let fact = vec![
        inst(Opcode::DUPLICATE, 0, -1, 0),
        inst(Opcode::LEQ, 2, 1, -1),
        inst(Opcode::JUMP_IF, 4, 2, 0),
        inst(Opcode::CLOSURE, 3, -2, 0),
        inst(Opcode::SUB, 5, 1, -1),
        call(ValueType::FlagA, 3, 4),
        inst(Opcode::MUL, 0, 1, 4),
        ret(ValueType::FlagA),
    ];
    let main = vec![
        inst(Opcode::CLOSURE, 0, -2, 0),
        inst(Opcode::DUPLICATE, 3, -3, 0),
        call(ValueType::FlagA, 0, 2),
        inst(Opcode::EQL, 1, 2, -4),
        inst(Opcode::ASSERT, 0, 1, 0),
        ret(ValueType::FlagA),
    ];
    let p = program(vec![function(main, 0, 0, 2), function(fact, 1, 1, 2)], consts);
    let mut vm = Vm::new(0);
    assert!(run_to_end(&p, &mut vm).is_none());
}

fn counter_program() -> Bytecode {
    // function 1 returns function 2, which counts up a local variable of function 1
    let consts = vec![Value::Function(1), Value::Function(2), num(1), num(2)];
    let main = vec![
        inst(Opcode::CLOSURE, 0, -1, 0),
        call(ValueType::FlagA, 0, 4),
        inst(Opcode::DUPLICATE, 1, 4, 0),
        call(ValueType::FlagA, 1, 4),
        call(ValueType::FlagA, 1, 4),
        inst(Opcode::EQL, 2, 4, -4),
        inst(Opcode::ASSERT, 0, 2, 0),
        ret(ValueType::FlagA),
    ];
    let outer = vec![
        inst(Opcode::DUPLICATE, 1, -3, 0),
        inst(Opcode::CLOSURE, 0, -2, 0),
        inst(Opcode::SUB, 1, 1, -3),
        ret(ValueType::FlagA),
    ];
    let inner = vec![
        Instruction { op1: Opcode::ADD, ..inst(Opcode::STORE_UP_VALUE, 0, -3, 0) },
        inst(Opcode::LOAD_UP_VALUE, 0, 0, 0),
        ret(ValueType::FlagA),
    ];
    let mut counting = function(inner, 1, 0, 0);
    counting.up_ptrs = vec![ValueDesc {
        func: 1,
        index: 1,
        typ: ValueType::Int,
        is_local: false,
        stack: None,
        stack_base: 0,
    }];
    program(vec![function(main, 0, 0, 4), function(outer, 1, 0, 1), counting], consts)
}

#[test]
fn captured_variable_outlives_its_function() {
    let mut vm = Vm::new(0);
    assert!(run_to_end(&counter_program(), &mut vm).is_none());
}

#[test]
fn captured_variable_is_the_slot_until_the_return() {
    let p = counter_program();
    let mut vm = Vm::new(0);
    let mut f = start(&p, &mut vm, false).unwrap();
    vm.set_vec(0, 0, &vec![num(0); 4]).unwrap();
    f.started = true;
    // into the outer function, past the closure
    for _ in 0..4 {
        f.step(&p, &mut vm).unwrap();
    }
    let notes = f.frames[1].referred_by.as_ref().unwrap();
    assert_eq!(notes.len(), 1);
    assert_eq!(notes[0].0, 1);
    let id = notes[0].1.weaks[0];
    assert_eq!(vm.get_upvalue(id), Ok(num(1)));
    // the slot changes, and so does the variable
    f.step(&p, &mut vm).unwrap();
    assert_eq!(vm.get_upvalue(id), Ok(num(0)));
    // the return keeps its value
    f.step(&p, &mut vm).unwrap();
    assert_eq!(vm.get_upvalue(id), Ok(num(0)));
    vm.set(0, 5, num(77)).unwrap();
    assert_eq!(vm.get_upvalue(id), Ok(num(0)));
}

fn with_package(mut p: Bytecode, vm: &mut Vm, members: Vec<Value>) -> Bytecode {
    let members: Region = vm.new_cells(&members);
    p.packages.push(PackageObj { members, init_funcs: vec![], var_mapping: vec![0] });
    p
}

#[test]
fn deferred_calls_run_last_first() {
    // consts: functions 1, 2, 3, then 10, 1, 2, 21, the package
    let consts = vec![
        Value::Function(1),
        Value::Function(2),
        Value::Function(3),
        num(10),
        num(1),
        num(2),
        num(21),
        Value::Package(0),
    ];
    let main = vec![
        inst(Opcode::CLOSURE, 0, -1, 0),
        call(ValueType::FlagA, 0, 4),
        inst(Opcode::LOAD_PKG, 1, -8, 0),
        inst(Opcode::EQL, 2, 1, -7),
        inst(Opcode::ASSERT, 0, 2, 0),
        ret(ValueType::FlagA),
    ];
    let deferring = vec![
        inst(Opcode::CLOSURE, 0, -2, 0),
        call(ValueType::FlagC, 0, 4),
        inst(Opcode::CLOSURE, 0, -3, 0),
        call(ValueType::FlagC, 0, 4),
        ret(ValueType::FlagC),
    ];
    let digit = |c: i32| {
        vec![
            Instruction { op1: Opcode::MUL, ..inst(Opcode::STORE_PKG, -8, 0, -4) },
            Instruction { op1: Opcode::ADD, ..inst(Opcode::STORE_PKG, -8, 0, c) },
            ret(ValueType::FlagA),
        ]
    };
    let p = program(
        vec![
            function(main, 0, 0, 4),
            function(deferring, 0, 0, 1),
            function(digit(-5), 0, 0, 0),
            function(digit(-6), 0, 0, 0),
        ],
        consts,
    );
    let mut vm = Vm::new(1);
    let p = with_package(p, &mut vm, vec![num(0)]);
    assert!(run_to_end(&p, &mut vm).is_none());
}

#[test]
fn deferred_calls_keep_their_arguments() {
    // consts: functions 1, 2, then 10, 1, 2, 99, 21, the package
    let consts = vec![
        Value::Function(1),
        Value::Function(2),
        num(10),
        num(1),
        num(2),
        num(99),
        num(21),
        Value::Package(0),
    ];
    let main = vec![
        inst(Opcode::CLOSURE, 0, -1, 0),
        call(ValueType::FlagA, 0, 4),
        inst(Opcode::LOAD_PKG, 1, -8, 0),
        inst(Opcode::EQL, 2, 1, -7),
        inst(Opcode::ASSERT, 0, 2, 0),
        // what the deferring function has returned
        inst(Opcode::EQL, 2, 4, -6),
        inst(Opcode::ASSERT, 0, 2, 0),
        ret(ValueType::FlagA),
    ];
    // slot 0: the result, 1: a local variable, 4: the argument of a deferred call
    let deferring = vec![
        inst(Opcode::CLOSURE, 1, -2, 0),
        inst(Opcode::DUPLICATE, 4, -4, 0),
        call(ValueType::FlagC, 1, 4),
        inst(Opcode::DUPLICATE, 4, -5, 0),
        call(ValueType::FlagC, 1, 4),
        inst(Opcode::DUPLICATE, 4, -6, 0),
        inst(Opcode::DUPLICATE, 0, -6, 0),
        ret(ValueType::FlagC),
    ];
    let digit = vec![
        Instruction { op1: Opcode::MUL, ..inst(Opcode::STORE_PKG, -8, 0, -3) },
        Instruction { op1: Opcode::ADD, ..inst(Opcode::STORE_PKG, -8, 0, 0) },
        ret(ValueType::FlagA),
    ];
    let p = program(
        vec![function(main, 0, 0, 4), function(deferring, 1, 0, 1), function(digit, 0, 1, 0)],
        consts,
    );
    let mut vm = Vm::new(1);
    let p = with_package(p, &mut vm, vec![num(0)]);
    assert!(run_to_end(&p, &mut vm).is_none());
}

fn panicking(recover: bool) -> Bytecode {
    let consts = vec![Value::Function(1), Value::Function(2), num(9)];
    let main =
        vec![inst(Opcode::CLOSURE, 0, -1, 0), call(ValueType::FlagA, 0, 4), ret(ValueType::FlagA)];
    let failing = vec![
        inst(Opcode::CLOSURE, 0, -2, 0),
        call(ValueType::FlagC, 0, 4),
        inst(Opcode::PANIC, 0, -3, 0),
        inst(Opcode::JUMP, 0, 0, 0),
        ret(ValueType::FlagC),
    ];
    let cleanup = if recover {
        vec![inst(Opcode::RECOVER, 0, 0, 0), ret(ValueType::FlagA)]
    } else {
        vec![inst(Opcode::JUMP, 0, 0, 0), ret(ValueType::FlagA)]
    };
    program(
        vec![function(main, 0, 0, 4), function(failing, 0, 0, 1), function(cleanup, 0, 0, 1)],
        consts,
    )
}

#[test]
fn panic_is_recovered_in_a_deferred_call() {
    let mut vm = Vm::new(0);
    assert!(run_to_end(&panicking(true), &mut vm).is_none());
}

#[test]
fn panic_passes_all_frames() {
    let mut vm = Vm::new(0);
    let data = run_to_end(&panicking(false), &mut vm).unwrap();
    assert_eq!(data.msg, num(9));
    // the place of the panic, its return after the deferred call, and the call in the caller
    assert_eq!(data.call_stack, vec![(1, 2), (1, 3), (0, 1)]);
}

#[test]
fn recover_without_panic_gives_nil() {
    let code = vec![inst(Opcode::RECOVER, 0, 0, 0), ret(ValueType::FlagA)];
    let p = program(vec![function(code, 0, 0, 1)], vec![]);
    let mut vm = Vm::new(0);
    let mut f = start(&p, &mut vm, false).unwrap();
    f.step(&p, &mut vm).unwrap();
    assert_eq!(vm.get(0, 0), Ok(Value::Nil(ValueType::Void)));
}

#[test]
fn recovered_value_is_in_an_interface() {
    let code = vec![
        inst(Opcode::PANIC, 0, -1, 0),
        inst(Opcode::JUMP, 0, 0, 0),
        inst(Opcode::RECOVER, 1, 0, 0),
    ];
    let p = program(vec![function(code, 0, 0, 2)], vec![num(5)]);
    let mut vm = Vm::new(0);
    let mut f = start(&p, &mut vm, false).unwrap();
    f.step(&p, &mut vm).unwrap();
    assert_eq!(f.frames[0].pc, 2);
    assert_eq!(f.panic.as_ref().unwrap().call_stack, vec![(0, 0)]);
    f.step(&p, &mut vm).unwrap();
    assert!(f.panic.is_none());
    match vm.get(0, 1).unwrap() {
        Value::Interface(InterfaceObj::Gos { under, binding: None }) => {
            assert_eq!(vm.cells[under], num(5));
        }
        v => panic!("no interface: {:?}", v),
    }
}

#[test]
fn mistake_of_the_program_is_a_panic_with_a_text() {
    let consts = vec![num(3)];
    let code = vec![
        inst(Opcode::LOAD_SLICE, 1, 0, -1),
        inst(Opcode::JUMP, 0, 0, 0),
        ret(ValueType::FlagA),
    ];
    let p = program(vec![function(code, 0, 0, 2)], consts);
    for (slice, text) in [
        (Value::Nil(ValueType::Slice), "access nil value"),
        (Value::Nil(ValueType::Void), "access nil value"),
    ] {
        let mut vm = Vm::new(0);
        let mut f = start(&p, &mut vm, false).unwrap();
        f.started = true;
        vm.set_vec(0, 0, &vec![slice, num(0)]).unwrap();
        let before = vm.stacks[0].clone();
        assert!(matches!(f.step(&p, &mut vm), Ok(Step::Next)));
        assert_eq!(vm.stacks[0], before);
        finish(&p, &mut vm, f);
        let data = vm.take_panic().unwrap();
        assert_eq!(panic_text(&vm, &data), text);
        assert_eq!(data.call_stack, vec![(0, 0)]);
    }
    let mut vm = Vm::new(0);
    let s = vm.slice_with_data(&vec![num(1), num(2)]);
    let mut f = start(&p, &mut vm, false).unwrap();
    f.started = true;
    vm.set_vec(0, 0, &vec![s, num(0)]).unwrap();
    finish(&p, &mut vm, f);
    let data = vm.take_panic().unwrap();
    assert_eq!(panic_text(&vm, &data), "index out of range");
}

#[test]
fn failed_assertion_is_a_panic() {
    let code = vec![inst(Opcode::ASSERT, 0, -1, 0), ret(ValueType::FlagA)];
    let p = program(vec![function(code, 0, 0, 0)], vec![Value::Bool(false)]);
    let mut vm = Vm::new(0);
    let data = run_to_end(&p, &mut vm).unwrap();
    assert_eq!(panic_text(&vm, &data), "Opcode::ASSERT: not true!");
}

fn waiting_then_panic(jumps: usize) -> Bytecode {
    let mut code = vec![inst(Opcode::JUMP, 0, 0, 0); jumps];
    code.push(inst(Opcode::PANIC, 0, -1, 0));
    code.push(ret(ValueType::FlagA));
    program(vec![function(code, 0, 0, 0)], vec![num(1)])
}

#[test]
fn turn_ends_after_a_unit() {
    let p = waiting_then_panic(YIELD_UNIT + 10);
    let mut vm = Vm::new(0);
    let mut f = start(&p, &mut vm, false).unwrap();
    assert!(matches!(f.main_loop(&p, &mut vm), Ok(Step::Yield)));
    assert_eq!(f.total_inst, 1024);
    assert_eq!(f.unit_left, 1024);
    assert!(matches!(f.main_loop(&p, &mut vm), Ok(Step::End)));
    assert_eq!(vm.take_panic().unwrap().msg, num(1));
    assert!(vm.take_panic().is_none());
}

#[test]
fn panic_at_the_end_of_a_turn_is_lost() {
    let mut vm = Vm::new(0);
    assert!(run_to_end(&waiting_then_panic(YIELD_UNIT - 1), &mut vm).is_none());
    let mut vm = Vm::new(0);
    assert!(run_to_end(&waiting_then_panic(YIELD_UNIT - 2), &mut vm).is_some());
}

fn spawning() -> Bytecode {
    // slot 4 of main is the argument; the goroutine stores it in the package
    let consts = vec![Value::Function(1), num(42), Value::Package(0)];
    let main = vec![
        inst(Opcode::CLOSURE, 0, -1, 0),
        inst(Opcode::DUPLICATE, 4, -2, 0),
        call(ValueType::FlagB, 0, 4),
        inst(Opcode::JUMP, 0, 0, 0),
        ret(ValueType::FlagA),
    ];
    let go = vec![inst(Opcode::STORE_PKG, -3, 0, 0), ret(ValueType::FlagA)];
    program(vec![function(main, 0, 0, 4), function(go, 0, 1, 0)], consts)
}

#[test]
fn first_functions_have_room_for_their_slots() {
    let wide = |p: &mut Bytecode, func: usize, at: usize| {
        p.functions[func].max_write_index = 300;
        p.functions[func].code.insert(at, inst(Opcode::DUPLICATE, 300, -2, 0));
        p.functions[func].code.insert(at + 1, inst(Opcode::STORE_PKG, -3, 0, 300));
    };
    let mut vm = Vm::new(1);
    let mut p = with_package(spawning(), &mut vm, vec![num(0)]);
    wide(&mut p, 0, 3);
    wide(&mut p, 1, 0);
    let mut f = start(&p, &mut vm, true).unwrap();
    assert!(vm.stacks[f.stack].len() <= 300);
    let g = match f.main_loop(&p, &mut vm).unwrap() {
        Step::Spawn(g) => g,
        _ => panic!("no fiber was spawned"),
    };
    assert!(vm.stacks[g.stack].len() <= 300);
    for fiber in [f, g] {
        vm.cells[0] = num(0);
        finish(&p, &mut vm, fiber);
        assert_eq!(vm.cells[0], num(42));
    }
}

#[test]
fn goroutine_has_a_stack_of_its_own() {
    let mut vm = Vm::new(1);
    let p = with_package(spawning(), &mut vm, vec![num(0)]);
    let mut f = start(&p, &mut vm, true).unwrap();
    let g = match f.main_loop(&p, &mut vm).unwrap() {
        Step::Spawn(g) => g,
        _ => panic!("no fiber was spawned"),
    };
    assert_eq!((f._id(), g._id()), (0, 1));
    assert_eq!((f.stack, g.stack), (0, 1));
    assert_eq!(vm.get(1, 0), Ok(num(42)));
    assert_eq!(f.unit_left, YIELD_UNIT - 3);
    finish(&p, &mut vm, f);
    assert_eq!(vm.cells[0], num(0));
    finish(&p, &mut vm, g);
    assert_eq!(vm.cells[0], num(42));
}

#[test]
fn without_a_scheduler_goroutines_are_refused() {
    let mut vm = Vm::new(1);
    let p = with_package(spawning(), &mut vm, vec![num(0)]);
    let data = run_to_end(&p, &mut vm).unwrap();
    assert_eq!(panic_text(&vm, &data), "Async features disabled");
}

fn range_program(t: ValueType) -> Bytecode {
    // slot 0: what is walked through, 1: key, 2: value, 3: sum of keys, 4: sum of values
    let code = vec![
        typed(Opcode::RANGE_INIT, t, 0, 0, 0),
        typed(Opcode::RANGE, t, 1, 3, 2),
        inst(Opcode::ADD_ASSIGN, 3, 1, 0),
        inst(Opcode::ADD_ASSIGN, 4, 2, 0),
        inst(Opcode::JUMP, -4, 0, 0),
        inst(Opcode::JUMP, 0, 0, 0),
    ];
    program(vec![function(code, 0, 0, 5)], vec![])
}

fn sums(p: &Bytecode, vm: &mut Vm, target: Value) -> (Value, Value) {
    let mut f = start(p, vm, false).unwrap();
    f.started = true;
    vm.set_vec(f.stack, 0, &vec![target, num(0), num(0), num(0), num(0)]).unwrap();
    while f.frames[0].pc != 5 {
        f.step(p, vm).unwrap();
    }
    assert!(f.rstack.is_empty());
    (vm.get(f.stack, 3).unwrap(), vm.get(f.stack, 4).unwrap())
}

#[test]
fn range_over_lists() {
    let mut vm = Vm::new(0);
    let s = vm.slice_with_data(&vec![num(5), num(6), num(7)]);
    let a = vm.array_with_data(&vec![num(1), num(2)]);
    assert_eq!(sums(&range_program(ValueType::Slice), &mut vm, s), (num(3), num(18)));
    assert_eq!(sums(&range_program(ValueType::Array), &mut vm, a), (num(1), num(3)));
}

#[test]
fn range_over_nil_is_a_panic() {
    for t in [ValueType::Slice, ValueType::GoMap] {
        let consts = vec![Value::Nil(t)];
        let code = vec![
            typed(Opcode::RANGE_INIT, t, 0, -1, 0),
            typed(Opcode::RANGE, t, 1, 0, 2),
            ret(ValueType::FlagA),
        ];
        let p = program(vec![function(code, 0, 0, 3)], consts);
        let mut vm = Vm::new(0);
        let data = run_to_end(&p, &mut vm).unwrap();
        assert_eq!(panic_text(&vm, &data), "access nil value");
        assert_eq!(data.call_stack, vec![(0, 0)]);
    }
}

#[test]
fn walks_of_different_types_do_not_disturb_each_other() {
    let mut vm = Vm::new(0);
    let s = vm.slice_with_data(&vec![num(5), num(6)]);
    let text = vm.add_text("xy");
    let code = vec![
        typed(Opcode::RANGE_INIT, ValueType::Slice, 0, 0, 0),
        typed(Opcode::RANGE_INIT, ValueType::String, 0, 1, 0),
        typed(Opcode::RANGE, ValueType::String, 2, 0, 3),
        // the walk through the text is left where it is
        typed(Opcode::RANGE, ValueType::Slice, 2, 0, 3),
        typed(Opcode::RANGE, ValueType::Array, 2, 0, 3),
        typed(Opcode::RANGE, ValueType::Slice, 2, 1, 3),
        inst(Opcode::VOID, 0, 0, 0),
        inst(Opcode::JUMP, 0, 0, 0),
    ];
    let p = program(vec![function(code, 0, 0, 4)], vec![]);
    let mut f = start(&p, &mut vm, false).unwrap();
    f.started = true;
    vm.set_vec(f.stack, 0, &vec![s, text, num(0), num(0)]).unwrap();
    let mut seen = vec![];
    for _ in 0..6 {
        f.step(&p, &mut vm).unwrap();
        seen.push((vm.get(f.stack, 2).unwrap(), vm.get(f.stack, 3).unwrap()));
    }
    assert_eq!(seen[2], (num(0), num32('x' as i128)));
    assert_eq!(seen[3], (num(0), num(5)));
    assert_eq!(seen[4], (num(1), num(6)));
    // the walk through the list is over, that through the text is not
    assert_eq!(f.frames[0].pc, 7);
    assert_eq!(f.rstack.len(), 1);
}

#[test]
fn range_over_a_map() {
    let p = range_program(ValueType::GoMap);
    let mut vm = Vm::new(0);
    let m = vm.new_map();
    for (k, v) in [(1, 10), (2, 20), (3, 30)] {
        vm.map_insert(&p, m, num(k), num(v)).unwrap();
    }
    assert_eq!(sums(&p, &mut vm, Value::GoMap(m)), (num(6), num(60)));
}

#[test]
fn range_over_a_string_gives_characters() {
    let p = range_program(ValueType::String);
    let mut vm = Vm::new(0);
    let s = vm.add_text("aé!");
    let it = vm.range_init(s, ValueType::String).unwrap();
    let (k, v, it) = vm.range_next(&p, it).unwrap().unwrap();
    assert_eq!((k, v), (num(0), num32('a' as i128)));
    let (k, v, it) = vm.range_next(&p, it).unwrap().unwrap();
    assert_eq!((k, v), (num(1), num32('é' as i128)));
    let (k, v, it) = vm.range_next(&p, it).unwrap().unwrap();
    assert_eq!((k, v), (num(3), num32('!' as i128)));
    assert_eq!(vm.range_next(&p, it), Ok(None));
}

fn literal(key: usize, pairs: Vec<(Value, Value)>) -> (Vm, Bytecode, Value) {
    let meta = Value::Metadata(basic(key));
    let code = vec![
        inst(Opcode::LITERAL, 0, 1, pairs.len() as i32),
        inst(Opcode::VOID, 0, -1, 0),
        ret(ValueType::FlagA),
    ];
    let p = program(vec![function(code, 0, 0, 1)], vec![meta]);
    let mut vm = Vm::new(0);
    let mut f = start(&p, &mut vm, false).unwrap();
    f.started = true;
    let mut slots = vec![num(0)];
    for (k, v) in pairs {
        slots.push(k);
        slots.push(v);
    }
    vm.set_vec(0, 0, &slots).unwrap();
    f.step(&p, &mut vm).unwrap();
    assert_eq!(f.frames[0].pc, 2);
    let v = vm.get(0, 0).unwrap();
    (vm, p, v)
}

#[test]
fn literal_elements_stand_at_their_positions() {
    let pairs = vec![
        (num32(-1), num(7)),
        (num32(3), num(8)),
        (num32(-1), num(9)),
        (num32(1), num(5)),
        (num32(-1), num(6)),
    ];
    let (vm, _, v) = literal(1, pairs);
    let elems = vm.get_elements(false, v).unwrap();
    assert_eq!(elems, vec![num(7), num(5), num(6), num(8), num(9)]);
    let (vm, _, v) = literal(1, vec![(num32(2), num(1))]);
    assert_eq!(vm.get_elements(false, v).unwrap(), vec![num(0), num(0), num(1)]);
}

#[test]
fn literal_map_has_its_pairs() {
    let (vm, p, v) = literal(2, vec![(num(1), num(10)), (num(2), num(20)), (num(1), num(30))]);
    let m = match v {
        Value::GoMap(m) => m,
        v => panic!("no map: {:?}", v),
    };
    assert_eq!(vm.map_get(&p, m, num(1)), Ok(Some(num(30))));
    assert_eq!(vm.map_get(&p, m, num(2)), Ok(Some(num(20))));
    assert_eq!(vm.length(v), Ok(2));
}

#[test]
fn package_is_made_ready_once() {
    // function 1 leaves the variable of package 0 on the stack
    let consts = vec![Value::Package(0), num(11), Value::Function(1)];
    let main = vec![
        inst(Opcode::IMPORT, 2, -1, 0),
        inst(Opcode::CLOSURE, 0, -3, 0),
        call(ValueType::FlagA, 0, 4),
        inst(Opcode::IMPORT, 1, -1, 0),
        inst(Opcode::ASSERT, 0, -2, 0),
        ret(ValueType::FlagA),
    ];
    let init = vec![
        inst(Opcode::DUPLICATE, 0, -2, 0),
        typed(Opcode::RETURN, ValueType::FlagB, -1, 0, 0),
    ];
    let p = program(vec![function(main, 0, 0, 4), function(init, 0, 0, 1)], consts);
    let mut vm = Vm::new(1);
    let p = with_package(p, &mut vm, vec![num(0)]);
    assert!(run_to_end(&p, &mut vm).is_none());
    assert_eq!(vm.cells[0], num(11));
    assert_eq!(vm.inited, vec![true]);
    // a second time is refused
    let mut vm = Vm::new(1);
    vm.new_cells(&vec![num(0)]);
    vm.inited[0] = true;
    let mut f = start(&p, &mut vm, false).unwrap();
    f.frames[0].func = 1;
    f.started = true;
    vm.set_vec(0, 0, &vec![num(0)]).unwrap();
    f.step(&p, &mut vm).unwrap();
    assert!(matches!(f.step(&p, &mut vm), Err(Trap::Fault)));
}

#[test]
fn initialisers_are_loaded_one_after_the_other() {
    let code = vec![
        inst(Opcode::LOAD_INIT_FUNC, 0, -1, 1),
        inst(Opcode::JUMP, -2, 0, 0),
        inst(Opcode::JUMP, 0, 0, 0),
        inst(Opcode::JUMP, 0, 0, 0),
    ];
    let mut p = program(vec![function(code, 0, 0, 2)], vec![Value::Package(0)]);
    p.packages.push(PackageObj {
        members: Region { base: 0, len: 0 },
        init_funcs: vec![num(100), num(200)],
        var_mapping: vec![],
    });
    let mut vm = Vm::new(1);
    let mut f = start(&p, &mut vm, false).unwrap();
    f.started = true;
    vm.set_vec(0, 0, &vec![num(0), num32(0)]).unwrap();
    f.step(&p, &mut vm).unwrap();
    assert_eq!((vm.get(0, 0), vm.get(0, 1)), (Ok(num(100)), Ok(num32(1))));
    f.step(&p, &mut vm).unwrap();
    f.step(&p, &mut vm).unwrap();
    assert_eq!((vm.get(0, 0), vm.get(0, 1)), (Ok(num(200)), Ok(num32(2))));
    f.step(&p, &mut vm).unwrap();
    f.step(&p, &mut vm).unwrap();
    assert_eq!(f.frames[0].pc, 3);
    assert_eq!(vm.get(0, 1), Ok(num32(2)));
}

#[test]
fn broken_code_is_a_fault() {
    for code in [
        vec![inst(Opcode::VOID, 0, 0, 0)],
        vec![inst(Opcode::DUPLICATE, 0, -9, 0)],
        vec![inst(Opcode::QUO, 0, -1, -2)],
        vec![inst(Opcode::CALL, -1, 0, 0)],
        vec![inst(Opcode::LOAD_MAP, 0, -1, -1)],
        vec![inst(Opcode::JUMP, 5, 0, 0)],
    ] {
        let p = program(vec![function(code, 0, 0, 1)], vec![num(1), num(0)]);
        let mut vm = Vm::new(0);
        let mut f = start(&p, &mut vm, false).unwrap();
        let r = f.main_loop(&p, &mut vm);
        assert!(matches!(r, Err(Trap::Fault)));
    }
    let mut p = program(vec![], vec![]);
    p.entry = 3;
    assert!(start(&p, &mut Vm::new(0), false).is_err());
}

fn region_is_there(vm: &Vm, r: Region) -> bool {
    r.base + r.len <= vm.cells.len()
}

fn slice_is_there(vm: &Vm, s: SliceRef) -> bool {
    s.begin <= s.end && s.end <= s.cap_end && s.cap_end <= s.array.len && region_is_there(vm, s.array)
}

fn leads_somewhere(vm: &Vm, v: Value) -> bool {
    match v {
        Value::Str(s) | Value::Slice(s) => slice_is_there(vm, s),
        Value::Array(r) | Value::Struct(r) => region_is_there(vm, r),
        Value::Pointer(PointerObj::UpVal(id)) => id < vm.upvals.len(),
        Value::Pointer(PointerObj::SliceMember(s, _)) => slice_is_there(vm, s),
        Value::Pointer(PointerObj::StructField(r, _)) => region_is_there(vm, r),
        Value::Closure(id) => id < vm.closures.len(),
        Value::GoMap(m) => m < vm.maps.len(),
        Value::Channel(c) => c < vm.chans.len(),
        Value::Interface(InterfaceObj::Gos { under, .. }) => under < vm.cells.len(),
        _ => true,
    }
}

fn all_lead_somewhere(vm: &Vm) -> bool {
    vm.cells.iter().all(|v| leads_somewhere(vm, *v))
        && vm.stacks.iter().flatten().all(|v| leads_somewhere(vm, *v))
        && vm.maps.iter().flatten().all(|e| leads_somewhere(vm, e.0) && leads_somewhere(vm, e.1))
        && vm.upvals.iter().all(|u| match u {
            UpValueState::Closed(v) => leads_somewhere(vm, *v),
            UpValueState::Open(_) => true,
        })
        && vm.closures.iter().all(|c| match c {
            ClosureObj::Gos { uvs, recv, .. } => {
                uvs.map_or(true, |r| region_is_there(vm, r))
                    && recv.map_or(true, |v| leads_somewhere(vm, v))
            }
            ClosureObj::Ffi { .. } => true,
        })
}

#[test]
fn every_value_leads_somewhere_after_every_instruction() {
    let mut vm = Vm::new(1);
    let spawn = with_package(spawning(), &mut vm, vec![num(0)]);
    for (p, mut vm) in vec![
        (counter_program(), Vm::new(0)),
        (panicking(true), Vm::new(0)),
        (panicking(false), Vm::new(0)),
        (spawn, vm),
    ] {
        let mut fibers = vec![start(&p, &mut vm, true).unwrap()];
        let mut steps = 0;
        while let Some(mut f) = fibers.pop() {
            if !f.started {
                let first = &p.functions[f.frames[0].func];
                vm.set_vec(f.stack, first.param_count, &first.local_zeros).unwrap();
                f.started = true;
            }
            steps += 1;
            match f.step(&p, &mut vm).unwrap() {
                Step::End => {}
                Step::Spawn(g) => {
                    fibers.push(f);
                    fibers.push(g);
                }
                _ => fibers.push(f),
            }
            assert!(all_lead_somewhere(&vm));
        }
        assert!(steps > 6);
    }
}
