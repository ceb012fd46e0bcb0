//! Values in the tables: places, copies, maps, slices, strings and interfaces.
use go_vm::bytecode::{
    Binding4Runtime, Bytecode, FieldInfo, FunctionObj, IfaceBinding, MetadataType,
};
use go_vm::embed::{
    bind_iface_method, cast_receiver, get_embeded, get_struct_and_index, is_bindable, type_assert,
};
use go_vm::frame::CallFrame;
use go_vm::machine::{cst, ClosureObj, UpValueState, Vm};
use go_vm::meta::{get_underlying, is_same_type, mtype_unwraped};
use go_vm::panic::PanicData;
use go_vm::place::{deref_value, find_array_place, find_field_place, find_slice_place, Place};
use go_vm::slices::{get_slice_array, get_slice_slice, get_slice_string};
use go_vm::text::{char_from_i32, char_from_u32, get_runes_bytes, get_str_runes, scalar_bytes};
use go_vm::trap::{RuntimeError, Trap};
use go_vm::value::{
    IntKind, InterfaceObj, Meta, MetaCategory, PointerObj, SliceRef, Value, ValueType,
};

fn num(n: i128) -> Value {
    Value::Int(IntKind::Int, n)
}

fn meta(key: usize) -> Meta {
    Meta { key, category: MetaCategory::Default, ptr_depth: 0 }
}

fn field(name: &str, m: Meta) -> FieldInfo {
    FieldInfo { name: name.as_bytes().to_vec(), meta: m }
}

// types: 0 int, 1 string, 2 [2]int, 3 struct { int; [2]int }, 4 a name for 3, 5 a name for 4,
// 6 interface { sync; async }, 7 []int, 8 []int again, 9 a signature
fn program() -> Bytecode {
    Bytecode {
        functions: vec![FunctionObj {
            code: vec![],
            param_count: 0,
            ret_zeros: vec![],
            local_zeros: vec![],
            up_ptrs: vec![],
            max_write_index: 0,
        }],
        metas: vec![
            MetadataType::Basic(ValueType::Int),
            MetadataType::Basic(ValueType::String),
            MetadataType::Array(meta(0), 2),
            MetadataType::Struct(vec![field("a", meta(0)), field("b", meta(2))]),
            MetadataType::Named(meta(3)),
            MetadataType::Named(meta(4)),
            MetadataType::Interface(vec![
                field("read", meta(9)),
                field("async_read", meta(9)),
            ]),
            MetadataType::Slice(meta(0)),
            MetadataType::Slice(meta(0)),
            MetadataType::Signature { params: vec![], results: vec![] },
        ],
        packages: vec![],
        consts: vec![],
        ifaces: vec![
            IfaceBinding {
                meta: meta(0),
                methods: vec![Binding4Runtime::Struct { func: 0, ptr_recv: false, indices: None }],
            },
            IfaceBinding {
                meta: meta(3),
                methods: vec![Binding4Runtime::Struct { func: 0, ptr_recv: true, indices: None }],
            },
        ],
        indices: vec![],
        none_meta: meta(0),
        entry: 0,
    }
}

fn text_of(vm: &Vm, v: Value) -> String {
    match v {
        Value::Str(s) => String::from_utf8(vm.get_bytes(s).unwrap()).unwrap(),
        v => panic!("no string: {:?}", v),
    }
}

#[test]
fn panic_data_starts_empty() {
    let d = PanicData::new(num(3));
    assert_eq!(d.msg, num(3));
    assert!(d.call_stack.is_empty());
}

#[test]
fn constants_have_negative_numbers() {
    let consts = vec![num(1), num(2)];
    assert_eq!(*cst(&consts, -1), num(1));
    assert_eq!(*cst(&consts, -2), num(2));
}

#[test]
fn what_is_stored_is_loaded() {
    let p = program();
    let mut vm = Vm::new(0);
    vm.new_cells(&vec![num(0), num(0)]);
    let stack = vm.new_stack(&vec![num(0), num(0)]);
    let m = vm.new_map();
    let id = vm.new_upval(UpValueState::Closed(num(0)));
    let places =
        [Place::Cell(1), Place::Slot(stack, 1), Place::Entry(m, num(5)), Place::Up(id)];
    for (i, place) in places.iter().enumerate() {
        vm.store(&p, *place, num(10 + i as i128)).unwrap();
    }
    for (i, place) in places.iter().enumerate() {
        assert_eq!(vm.load(&p, *place), Ok(num(10 + i as i128)));
    }
    assert_eq!(vm.load(&p, Place::Cell(0)), Ok(num(0)));
    assert_eq!(vm.load(&p, Place::Slot(stack, 0)), Ok(num(0)));
    assert_eq!(vm.load(&p, Place::Entry(m, num(6))), Err(Trap::Fault));
    assert_eq!(vm.store(&p, Place::Cell(9), num(1)), Err(Trap::Fault));
}

#[test]
fn copies_share_nothing() {
    let p = program();
    let mut vm = Vm::new(0);
    let s = vm.zero(&p, meta(3)).unwrap();
    let t = vm.copy_semantic(s).unwrap();
    assert_ne!(s, t);
    assert_eq!(vm.equal(&p, s, t), Ok(true));
    let place = find_field_place(s, 0).unwrap();
    vm.store(&p, place, num(9)).unwrap();
    assert_eq!(vm.equal(&p, s, t), Ok(false));
    let inner = vm.load(&p, find_field_place(t, 1).unwrap()).unwrap();
    vm.store(&p, find_array_place(inner, 1).unwrap(), num(4)).unwrap();
    let other = vm.load(&p, find_field_place(s, 1).unwrap()).unwrap();
    assert_eq!(vm.load(&p, find_array_place(other, 1).unwrap()), Ok(num(0)));
    // slices are shared
    let a = vm.slice_with_data(&vec![num(1)]);
    assert_eq!(vm.copy_semantic(a), Ok(a));
}

#[test]
fn elements_outside_are_refused() {
    let mut vm = Vm::new(0);
    let a = vm.array_with_data(&vec![num(1), num(2)]);
    let s = vm.slice_with_data(&vec![num(1), num(2)]);
    let out = Err(Trap::Panic(RuntimeError::IndexOutOfRange));
    assert_eq!(find_array_place(a, 2), out);
    assert_eq!(find_array_place(a, -1), out);
    assert_eq!(find_slice_place(s, 2), out);
    assert_eq!(
        find_slice_place(Value::Nil(ValueType::Slice), 0),
        Err(Trap::Panic(RuntimeError::NilAccess))
    );
    assert_eq!(find_array_place(num(1), 0), Err(Trap::Fault));
}

#[test]
fn maps_hold_what_was_inserted() {
    let p = program();
    let mut vm = Vm::new(0);
    let m = vm.new_map();
    assert_eq!(vm.map_get(&p, m, num(1)), Ok(None));
    vm.map_insert(&p, m, num(1), num(10)).unwrap();
    vm.map_insert(&p, m, num(2), num(20)).unwrap();
    vm.map_insert(&p, m, num(1), num(11)).unwrap();
    assert_eq!(vm.maps[m].len(), 2);
    assert_eq!(vm.map_get(&p, m, num(1)), Ok(Some(num(11))));
    assert_eq!(vm.map_get(&p, m, num(2)), Ok(Some(num(20))));
    vm.map_delete(&p, m, num(1)).unwrap();
    assert_eq!(vm.map_get(&p, m, num(1)), Ok(None));
    assert_eq!(vm.map_get(&p, m, num(2)), Ok(Some(num(20))));
    vm.map_delete(&p, m, num(7)).unwrap();
    assert_eq!(vm.length(Value::GoMap(m)), Ok(1));
    assert_eq!(vm.map_get(&p, m + 1, num(1)), Err(Trap::Fault));
}

#[test]
fn keys_are_compared_by_what_they_hold() {
    let p = program();
    let mut vm = Vm::new(0);
    let m = vm.new_map();
    let (a, b) = (vm.add_text("key"), vm.add_text("key"));
    vm.map_insert(&p, m, a, num(1)).unwrap();
    assert_eq!(vm.map_get(&p, m, b), Ok(Some(num(1))));
    // what is no number is found by nothing
    let nan = Value::Float64(f64::NAN.to_bits());
    vm.map_insert(&p, m, nan, num(2)).unwrap();
    vm.map_insert(&p, m, nan, num(3)).unwrap();
    assert_eq!(vm.map_get(&p, m, nan), Ok(None));
    assert_eq!(vm.maps[m].len(), 3);
}

#[test]
fn parts_of_slices() {
    let mut vm = Vm::new(0);
    let s = vm.slice_with_data(&vec![num(0), num(1), num(2), num(3)]);
    let t = get_slice_slice(s, 1, 3, -1).unwrap();
    assert_eq!(vm.get_elements(false, t).unwrap(), vec![num(1), num(2)]);
    assert_eq!((vm.length(t), vm.capacity(t)), (Ok(2), Ok(3)));
    let u = get_slice_slice(t, 0, 3, 3).unwrap();
    assert_eq!(vm.get_elements(false, u).unwrap(), vec![num(1), num(2), num(3)]);
    let out = Err(Trap::Panic(RuntimeError::SliceOutOfRange));
    assert_eq!(get_slice_slice(s, 3, 2, -1), out);
    assert_eq!(get_slice_slice(s, 0, 5, -1), out);
    assert_eq!(get_slice_slice(Value::Nil(ValueType::Slice), 0, 1, -1), out);
    let nil = Value::Nil(ValueType::Slice);
    assert_eq!(get_slice_slice(nil, 0, -1, -1), Ok(nil));
    let a = vm.array_with_data(&vec![num(7), num(8)]);
    let whole = get_slice_array(a, 0, -1).unwrap();
    assert_eq!(vm.get_elements(false, whole).unwrap(), vec![num(7), num(8)]);
    assert_eq!(get_slice_array(a, 0, 3), out);
    let text = vm.add_text("hello");
    let ell = get_slice_string(text, 1, 4, -1).unwrap();
    assert_eq!(text_of(&vm, ell), "ell");
    assert_eq!(get_slice_string(text, 4, 9, -1), out);
}

#[test]
fn append_adds_behind() {
    let mut vm = Vm::new(0);
    let s = vm.slice_with_data(&vec![num(1)]);
    let b = vm.slice_with_data(&vec![num(2), num(3)]);
    let t = vm.slice_append(false, s, b).unwrap();
    assert_eq!(vm.get_elements(false, t).unwrap(), vec![num(1), num(2), num(3)]);
    assert_eq!(vm.get_elements(false, s).unwrap(), vec![num(1)]);
    let nil = Value::Nil(ValueType::Slice);
    let u = vm.slice_append(false, nil, b).unwrap();
    assert_eq!(vm.get_elements(false, u).unwrap(), vec![num(2), num(3)]);
    assert_eq!(vm.slice_append(false, nil, nil), Ok(nil));
    // with room the array is shared
    let room = vm.slice_with_size(1, 4, num(0)).unwrap();
    let x = vm.slice_append(false, room, s).unwrap();
    let y = vm.slice_append(false, room, b).unwrap();
    assert_eq!(vm.get_elements(false, y).unwrap(), vec![num(0), num(2), num(3)]);
    assert_eq!(vm.get_elements(false, x).unwrap(), vec![num(0), num(2)]);
    // a string as bytes
    let text = vm.add_text("hi");
    let bytes = vm.slice_append(true, nil, text).unwrap();
    assert_eq!(
        vm.get_elements(false, bytes).unwrap(),
        vec![Value::Int(IntKind::Uint8, 104), Value::Int(IntKind::Uint8, 105)]
    );
    assert_eq!(vm.slice_with_size(3, 2, num(0)), Err(Trap::Fault));
}

#[test]
fn copying_elements_stops_at_the_shorter() {
    let mut vm = Vm::new(0);
    let a = vm.slice_with_data(&vec![num(1), num(2), num(3)]);
    let b = vm.slice_with_data(&vec![num(8), num(9)]);
    assert_eq!(vm.slice_copy_from(false, a, b), Ok(2));
    assert_eq!(vm.get_elements(false, a).unwrap(), vec![num(8), num(9), num(3)]);
    assert_eq!(vm.slice_copy_from(false, Value::Nil(ValueType::Slice), b), Ok(0));
}

#[test]
fn characters_round_trip() {
    let text = "aé€😀";
    let runes = get_str_runes(&text.as_bytes().to_vec()).unwrap();
    let numbers: Vec<Value> =
        text.chars().map(|c| Value::Int(IntKind::Int32, c as i128)).collect();
    assert_eq!(runes, numbers);
    assert_eq!(get_runes_bytes(&runes).unwrap(), text.as_bytes().to_vec());
    assert_eq!(get_str_runes(&vec![0xff]), Err(Trap::Fault));
    assert_eq!(get_runes_bytes(&vec![num(1)]), Err(Trap::Fault));
    assert_eq!(char_from_u32(0xd800), Err(Trap::Fault));
    assert_eq!(char_from_u32(0x20ac), Ok(0x20ac));
    assert_eq!(char_from_i32(-1), Err(Trap::Fault));
    assert_eq!(scalar_bytes(0x1f600), "😀".as_bytes().to_vec());
}

#[test]
fn values_are_equal_by_what_they_hold() {
    let p = program();
    let mut vm = Vm::new(0);
    let (a, b, c) = (vm.add_text("x"), vm.add_text("x"), vm.add_text("y"));
    assert_eq!(vm.equal(&p, a, b), Ok(true));
    assert_eq!(vm.equal(&p, a, c), Ok(false));
    let nil = Value::Nil(ValueType::Pointer);
    assert_eq!(vm.equal(&p, nil, Value::Nil(ValueType::Slice)), Ok(true));
    assert_eq!(vm.equal(&p, nil, num(0)), Ok(false));
    // an interface equals what is in it
    let i = vm.boxed(num(3), Some(0));
    assert_eq!(vm.equal(&p, i, num(3)), Ok(true));
    let j = vm.boxed(num(3), Some(1));
    assert_eq!(vm.equal(&p, i, j), Ok(false));
    // a struct within itself has no end
    let s = vm.zero(&p, meta(3)).unwrap();
    vm.store(&p, find_field_place(s, 0).unwrap(), s).unwrap();
    assert_eq!(vm.equal(&p, s, s), Err(Trap::Fault));
    assert_eq!(vm.copy_semantic(s), Err(Trap::Fault));
}

#[test]
fn zero_values_of_types() {
    let p = program();
    let mut vm = Vm::new(0);
    assert_eq!(vm.zero(&p, meta(0)), Ok(num(0)));
    let s = vm.zero(&p, meta(1)).unwrap();
    assert_eq!(text_of(&vm, s), "");
    let a = vm.zero(&p, meta(2)).unwrap();
    assert_eq!(vm.length(a), Ok(2));
    assert_eq!(vm.zero(&p, meta(7)), Ok(Value::Nil(ValueType::Slice)));
    let ptr = Meta { ptr_depth: 1, ..meta(3) };
    assert_eq!(vm.zero(&p, ptr), Ok(Value::Nil(ValueType::Pointer)));
    assert_eq!(vm.zero(&p, meta(99)), Err(Trap::Fault));
}

#[test]
fn types_are_compared_by_structure() {
    let p = program();
    assert_eq!(is_same_type(&p, meta(7), meta(8)), Ok(true));
    assert_eq!(is_same_type(&p, meta(0), meta(1)), Ok(false));
    let ptr = Meta { ptr_depth: 1, ..meta(7) };
    assert_eq!(is_same_type(&p, meta(7), ptr), Ok(false));
    assert_eq!(mtype_unwraped(&p, meta(5)), Ok(3));
    assert_eq!(mtype_unwraped(&p, meta(77)), Err(Trap::Fault));
    assert_eq!(get_underlying(&p, meta(4)).unwrap().key, 3);
}

#[test]
fn embedded_fields_are_found_through_pointers() {
    let p = program();
    let mut vm = Vm::new(0);
    let inner = vm.zero(&p, meta(3)).unwrap();
    let ptr = Value::Pointer(PointerObj::UpVal(vm.new_upval(UpValueState::Closed(inner))));
    let outer = Value::Struct(vm.new_cells(&vec![num(1), ptr]));
    vm.store(&p, find_field_place(inner, 0).unwrap(), num(5)).unwrap();
    assert_eq!(get_embeded(ptr, &vec![0], &vm, &p), Ok(num(5)));
    assert_eq!(get_embeded(outer, &vec![1], &vm, &p), Ok(ptr));
    assert_eq!(get_embeded(outer, &vec![], &vm, &p), Ok(outer));
    assert_eq!(get_embeded(outer, &vec![2], &vm, &p), Err(Trap::Fault));
    assert_eq!(get_struct_and_index(outer, &vec![1, 0], &vm, &p), (Ok(inner), 0));
    assert_eq!(deref_value(ptr, &vm, &p), Ok(inner));
    let nil = Value::Nil(ValueType::Pointer);
    let refused = Err(Trap::Panic(RuntimeError::NilAccess));
    assert_eq!(get_embeded(nil, &vec![1, 0], &vm, &p), refused);
    assert_eq!(deref_value(nil, &vm, &p), refused);
    let holder = Value::Struct(vm.new_cells(&vec![num(1), nil]));
    // the field is known where the struct is not
    assert_eq!(get_struct_and_index(holder, &vec![1, 7], &vm, &p), (refused, 7));
    assert_eq!(get_struct_and_index(nil, &vec![3], &vm, &p), (refused, 3));
    assert_eq!(get_struct_and_index(outer, &vec![1], &vm, &p), (Ok(outer), 1));
}

#[test]
fn receivers_are_pointers_where_methods_want_them() {
    let p = program();
    let mut vm = Vm::new(0);
    let v = num(4);
    assert_eq!(cast_receiver(v, false, &mut vm, &p), Ok(v));
    let ptr = cast_receiver(v, true, &mut vm, &p).unwrap();
    assert_eq!(ptr, Value::Pointer(PointerObj::UpVal(0)));
    assert_eq!(cast_receiver(ptr, true, &mut vm, &p), Ok(ptr));
    assert_eq!(cast_receiver(ptr, false, &mut vm, &p), Ok(v));
}

#[test]
fn interfaces_give_back_what_they_hold() {
    let p = program();
    let mut vm = Vm::new(0);
    let i = vm.boxed(num(6), Some(0));
    let want = Value::Metadata(meta(0));
    assert_eq!(type_assert(i, want, &mut vm, &p), Ok((num(6), true)));
    let (v, ok) = type_assert(i, Value::Metadata(meta(1)), &mut vm, &p).unwrap();
    assert_eq!((text_of(&vm, v).as_str(), ok), ("", false));
    // without a type of its own it is what is asked for
    let j = vm.boxed(num(6), None);
    assert_eq!(type_assert(j, Value::Metadata(meta(1)), &mut vm, &p), Ok((num(6), true)));
    let nil = Value::Nil(ValueType::Interface);
    assert_eq!(
        type_assert(nil, want, &mut vm, &p),
        Err(Trap::Panic(RuntimeError::NilAccess))
    );
    let ffi = Value::Interface(InterfaceObj::Ffi { ffi: 0, meta: meta(6) });
    assert_eq!(
        type_assert(ffi, want, &mut vm, &p),
        Err(Trap::Panic(RuntimeError::FfiAssertion))
    );
}

#[test]
fn methods_are_bound_to_their_receivers() {
    let p = program();
    let mut vm = Vm::new(0);
    let under = vm.new_cell(num(8));
    let plain = InterfaceObj::Gos { under, binding: Some(0) };
    let cls = bind_iface_method(plain, 0, &mut vm, &p).unwrap();
    assert_eq!(cls, Value::Closure(0));
    assert_eq!(vm.closures[0], ClosureObj::Gos { func: 0, uvs: None, recv: Some(num(8)) });
    let pointer = InterfaceObj::Gos { under, binding: Some(1) };
    bind_iface_method(pointer, 0, &mut vm, &p).unwrap();
    match vm.closures[1] {
        ClosureObj::Gos { recv: Some(ptr), .. } => {
            assert_eq!(deref_value(ptr, &vm, &p), Ok(num(8)));
        }
        c => panic!("not bound: {:?}", c),
    }
    let ffi = InterfaceObj::Ffi { ffi: 5, meta: meta(6) };
    for (index, is_async) in [(0, false), (1, true)] {
        bind_iface_method(ffi, index, &mut vm, &p).unwrap();
        assert_eq!(
            vm.closures[2 + index],
            ClosureObj::Ffi { ffi: 5, iface: 6, index, meta: meta(9), is_async }
        );
    }
    assert!(is_bindable(plain, 0, &vm, &p));
    assert!(!is_bindable(plain, 3, &vm, &p));
    assert!(!is_bindable(InterfaceObj::Gos { under, binding: None }, 0, &vm, &p));
    assert!(!is_bindable(ffi, 2, &vm, &p));
}

#[test]
fn methods_are_bound_through_interfaces() {
    let mut p = program();
    let inner = |index| Binding4Runtime::Iface { index, indices: Some(vec![0]) };
    p.ifaces.push(IfaceBinding {
        meta: meta(3),
        methods: vec![
            inner(1),
            inner(2),
            inner(3),
            Binding4Runtime::Struct { func: 0, ptr_recv: true, indices: None },
            // a circle
            inner(5),
            inner(4),
        ],
    });
    let mut vm = Vm::new(0);
    // a pointer to a struct, whose field is an interface over the pointer
    let ptr = Value::Pointer(PointerObj::UpVal(0));
    let under = vm.new_cell(ptr);
    let iface = InterfaceObj::Gos { under, binding: Some(2) };
    let holder = Value::Struct(vm.new_cells(&vec![Value::Interface(iface)]));
    vm.new_upval(UpValueState::Closed(holder));
    for index in 0..4 {
        assert!(is_bindable(iface, index, &vm, &p));
        assert_eq!(bind_iface_method(iface, index, &mut vm, &p), Ok(Value::Closure(index)));
        assert_eq!(
            vm.closures[index],
            ClosureObj::Gos { func: 0, uvs: None, recv: Some(ptr) }
        );
    }
    assert!(!is_bindable(iface, 4, &vm, &p));
    assert!(!is_bindable(iface, 5, &vm, &p));
    // a nil interface has no methods, and a nil pointer leads to no interface
    let hollow = Value::Struct(vm.new_cells(&vec![Value::Nil(ValueType::Interface)]));
    let over_hollow = InterfaceObj::Gos { under: vm.new_cell(hollow), binding: Some(2) };
    assert!(!is_bindable(over_hollow, 0, &vm, &p));
    let nil = Value::Nil(ValueType::Pointer);
    let over_nil = InterfaceObj::Gos { under: vm.new_cell(nil), binding: Some(2) };
    assert!(is_bindable(over_nil, 0, &vm, &p));
    assert_eq!(
        bind_iface_method(over_nil, 0, &mut vm, &p),
        Err(Trap::Panic(RuntimeError::NilAccess))
    );
}

#[test]
fn captured_variables_of_a_slot_keep_its_value() {
    let mut vm = Vm::new(0);
    let stack = vm.new_stack(&vec![num(1), num(2), num(3)]);
    let ids: Vec<usize> = (0..3).map(|_| vm.new_upval(UpValueState::Closed(num(0)))).collect();
    let mut fr = CallFrame::with_closure(0, 1);
    fr.add_referred_by(1, ValueType::Int, ids[0]);
    fr.add_referred_by(1, ValueType::Int, ids[1]);
    // a slot has one type
    assert!(fr.is_noted_as(1, ValueType::Int));
    assert!(!fr.is_noted_as(1, ValueType::String));
    assert!(fr.is_noted_as(0, ValueType::String));
    fr.on_drop(&mut vm, stack).unwrap();
    vm.set(stack, 2, num(9)).unwrap();
    assert_eq!(vm.get_upvalue(ids[0]), Ok(num(3)));
    assert_eq!(vm.get_upvalue(ids[1]), Ok(num(3)));
    assert_eq!(vm.get_upvalue(ids[2]), Ok(num(0)));
    assert_eq!(fr.referred_by.as_ref().unwrap()[0].1.weaks, vec![ids[0], ids[1]]);
}

#[test]
fn messages_of_mistakes() {
    assert_eq!(RuntimeError::NilAccess.message(), "access nil value");
    assert_eq!(RuntimeError::AsyncDisabled.message(), "Async features disabled");
    assert_eq!(
        RuntimeError::ForeignPointer.message(),
        "only a unsafe-pointer cast from a pointer can be cast back to a pointer"
    );
}

#[test]
fn broken_slices_are_faults() {
    let vm = Vm::new(0);
    let region = go_vm::value::Region { base: 5, len: 3 };
    let s = SliceRef { array: region, begin: 0, end: 3, cap_end: 3 };
    assert_eq!(vm.get_slice(s), Err(Trap::Fault));
    assert_eq!(vm.get_bytes(s), Err(Trap::Fault));
}
