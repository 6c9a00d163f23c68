//! Iterators over every kind of value, one call at a time.

use monty_iter::advance::{Advance, HeapRead, HeapReadOutput};
use monty_iter::args::ArgValues;
use monty_iter::callable::step_under;
use monty_iter::collect::Collected;
use monty_iter::data::{Dict, DictView, FunctionObject, HeapData, NamedTuple};
use monty_iter::error::{ExcType, Exception, ResourceError, RunError, Type};
use monty_iter::gc::GC_INTERVAL;
use monty_iter::intern::Interns;
use monty_iter::items::{allocate_tuple, get_heap_item};
use monty_iter::iter::{IterValue, MontyIter};
use monty_iter::next::{iterator_next, Next};
use monty_iter::range::Range;
use monty_iter::resource::{time_verdict, LimitedTracker, NoLimitTracker, ResourceLimits, ResourceTracker};
use monty_iter::tuple::Tuple;
use monty_iter::value::{BytesId, HeapId, StringId, Value};
use monty_iter::vm::VM;

fn machine() -> VM<NoLimitTracker> {
    VM::new(NoLimitTracker, Interns { strings: Vec::new(), bytes: Vec::new() })
}

fn limited(max_allocations: usize) -> VM<LimitedTracker> {
    let tracker = LimitedTracker::new(ResourceLimits::new().max_allocations(max_allocations));
    VM::new(tracker, Interns { strings: Vec::new(), bytes: Vec::new() })
}

fn allocate<T: ResourceTracker>(vm: &mut VM<T>, data: HeapData) -> HeapId {
    vm.heap.allocate(data).expect("an allocation")
}

fn ints(numbers: &[i64]) -> Vec<Value> {
    numbers.iter().map(|number| Value::Int(*number)).collect()
}

fn refs<T: ResourceTracker>(vm: &VM<T>, id: HeapId) -> usize {
    match &vm.heap.entries[id.0] {
        Some(entry) => entry.refs,
        None => 0,
    }
}

fn live<T: ResourceTracker>(vm: &VM<T>) -> usize {
    vm.heap.entries.iter().filter(|entry| entry.is_some()).count()
}

fn item<T: ResourceTracker>(iter: &mut MontyIter, vm: &mut VM<T>) -> Option<Value> {
    match iter.for_next(vm) {
        Ok(Advance::Item(value)) => Some(value),
        Ok(Advance::Exhausted) => None,
        other => panic!("unexpected: {other:?}"),
    }
}

fn drain<T: ResourceTracker>(iter: MontyIter, vm: &mut VM<T>) -> Vec<Value> {
    match iter.collect(vm) {
        Ok(Collected::Done(items)) => items,
        other => panic!("unexpected: {other:?}"),
    }
}

/// All items of a new entry with this data.
fn items_of(data: HeapData) -> Vec<Value> {
    let mut vm = machine();
    let id = allocate(&mut vm, data);
    let iter = MontyIter::new(Value::Ref(id), &mut vm).expect("an iterable");
    drain(iter, &mut vm)
}

fn text_of<T: ResourceTracker>(vm: &VM<T>, value: &Value) -> String {
    match vm.heap.get(value.ref_id().expect("a string")) {
        HeapData::Str(text) => text.clone(),
        _ => panic!("not a string"),
    }
}

fn error_text(error: &RunError) -> String {
    error.message().expect("a message")
}

fn dict(numbers: &[i64]) -> HeapData {
    let entries = numbers.iter().map(|n| (Value::Int(*n), Value::Int(n * 10))).collect();
    HeapData::Dict(Dict { entries })
}

fn view(vm: &mut VM<NoLimitTracker>, numbers: &[i64], wrap: fn(DictView) -> HeapData) -> (HeapId, HeapId) {
    let dict_id = allocate(vm, dict(numbers));
    let view_id = allocate(vm, wrap(DictView { dict_id }));
    (dict_id, view_id)
}

// Containers.

#[test]
fn lists_are_walked_in_order() {
    assert_eq!(items_of(HeapData::List(ints(&[7, 8, 9]))), ints(&[7, 8, 9]));
    assert_eq!(items_of(HeapData::List(Vec::new())), Vec::new());
}

#[test]
fn a_list_may_shrink_and_grow() {
    let mut vm = machine();
    let id = allocate(&mut vm, HeapData::List(ints(&[1, 2, 3])));
    let mut iter = MontyIter::new(Value::Ref(id), &mut vm).expect("an iterable");
    assert_eq!(item(&mut iter, &mut vm), Some(Value::Int(1)));
    assert_eq!(item(&mut iter, &mut vm), Some(Value::Int(2)));
    assert_eq!(iter.size_hint(&vm.heap), 1);
    if let HeapData::List(items) = vm.heap.get_mut(id) {
        items.truncate(1);
    }
    assert_eq!(iter.size_hint(&vm.heap), 0);
    assert_eq!(item(&mut iter, &mut vm), None);
    assert_eq!(iter.index, 2);
    if let HeapData::List(items) = vm.heap.get_mut(id) {
        items.extend(ints(&[5, 6]));
    }
    assert_eq!(item(&mut iter, &mut vm), Some(Value::Int(6)));
    iter.drop_with_heap(&mut vm.heap);
    assert_eq!(live(&vm), 0);
}

#[test]
fn tuples_are_walked_whether_short_or_long() {
    let pair = Tuple::pair(Value::Int(1), Value::Int(2));
    assert_eq!(pair.as_slice(), &ints(&[1, 2])[..]);
    assert_eq!(items_of(HeapData::Tuple(pair)), ints(&[1, 2]));
    let long = Tuple::from_vec(ints(&[4, 5, 6, 7]));
    assert_eq!(long.as_slice(), &ints(&[4, 5, 6, 7])[..]);
    assert_eq!(items_of(HeapData::Tuple(long)), ints(&[4, 5, 6, 7]));
    assert_eq!(items_of(HeapData::Tuple(Tuple::from_vec(Vec::new()))), Vec::new());
}

#[test]
fn other_containers_are_walked_in_order() {
    let point = NamedTuple { name: "Point".to_owned(), items: ints(&[3, 4]) };
    assert_eq!(items_of(HeapData::NamedTuple(point)), ints(&[3, 4]));
    assert_eq!(items_of(HeapData::Bytes(vec![0, 127, 255])), ints(&[0, 127, 255]));
    assert_eq!(items_of(HeapData::FrozenSet(ints(&[2, 1]))), ints(&[2, 1]));
    assert_eq!(items_of(HeapData::PySet(ints(&[2, 1]))), ints(&[2, 1]));
    assert_eq!(items_of(dict(&[6, 5])), ints(&[6, 5]));
}

#[test]
fn dict_views_yield_keys_values_and_pairs() {
    let mut vm = machine();
    let (_, keys) = view(&mut vm, &[1, 2], HeapData::DictKeysView);
    let iter = MontyIter::new(Value::Ref(keys), &mut vm).expect("an iterable");
    assert_eq!(drain(iter, &mut vm), ints(&[1, 2]));
    let (_, values) = view(&mut vm, &[1, 2], HeapData::DictValuesView);
    let iter = MontyIter::new(Value::Ref(values), &mut vm).expect("an iterable");
    assert_eq!(drain(iter, &mut vm), ints(&[10, 20]));
    let (_, pairs) = view(&mut vm, &[1, 2], HeapData::DictItemsView);
    let iter = MontyIter::new(Value::Ref(pairs), &mut vm).expect("an iterable");
    let found = drain(iter, &mut vm);
    assert_eq!(found.len(), 2);
    for (value, expected) in found.iter().zip([[1, 10], [2, 20]]) {
        match vm.heap.get(value.ref_id().expect("a tuple")) {
            HeapData::Tuple(tuple) => assert_eq!(tuple.as_slice(), &ints(&expected)[..]),
            _ => panic!("not a tuple"),
        }
    }
}

#[test]
fn a_dict_may_not_change_size() {
    let mut vm = machine();
    let id = allocate(&mut vm, dict(&[1, 2]));
    let mut iter = MontyIter::new(Value::Ref(id), &mut vm).expect("an iterable");
    assert_eq!(item(&mut iter, &mut vm), Some(Value::Int(1)));
    if let HeapData::Dict(dict) = vm.heap.get_mut(id) {
        dict.entries.push((Value::Int(3), Value::PyNone));
    }
    for _ in 0..2 {
        let error = iter.for_next(&mut vm).expect_err("a changed dict");
        assert_eq!(error.exc_type(), ExcType::RuntimeError);
        assert_eq!(error_text(&error), "dictionary changed size during iteration");
        assert_eq!(iter.index, 1);
    }
    if let HeapData::Dict(dict) = vm.heap.get_mut(id) {
        dict.entries.pop();
    }
    assert_eq!(item(&mut iter, &mut vm), Some(Value::Int(2)));
    if let HeapData::Dict(dict) = vm.heap.get_mut(id) {
        dict.entries.clear();
    }
    assert_eq!(item(&mut iter, &mut vm), None);
}

#[test]
fn the_dict_behind_a_view_may_not_change_size() {
    for wrap in [HeapData::DictKeysView, HeapData::DictItemsView, HeapData::DictValuesView] {
        let mut vm = machine();
        let (dict_id, view_id) = view(&mut vm, &[1, 2], wrap);
        let mut iter = MontyIter::new(Value::Ref(view_id), &mut vm).expect("an iterable");
        if let HeapData::Dict(dict) = vm.heap.get_mut(dict_id) {
            dict.entries.pop();
        }
        let error = iter.for_next(&mut vm).expect_err("a changed dict");
        assert!(matches!(error, RunError::DictChangedSize));
    }
}

#[test]
fn a_set_may_not_change_size() {
    let mut vm = machine();
    let id = allocate(&mut vm, HeapData::PySet(ints(&[1, 2])));
    let mut iter = MontyIter::new(Value::Ref(id), &mut vm).expect("an iterable");
    if let HeapData::PySet(items) = vm.heap.get_mut(id) {
        items.push(Value::Int(3));
    }
    let error = iter.for_next(&mut vm).expect_err("a changed set");
    assert_eq!(error.exc_type(), ExcType::RuntimeError);
    assert_eq!(error_text(&error), "Set changed size during iteration");
}

#[test]
fn items_come_with_references_of_their_own() {
    let mut vm = machine();
    let inner = allocate(&mut vm, HeapData::List(Vec::new()));
    let outer = allocate(&mut vm, HeapData::List(vec![Value::Ref(inner)]));
    let mut iter = MontyIter::new(Value::Ref(outer), &mut vm).expect("an iterable");
    assert_eq!(refs(&vm, inner), 1);
    let first = item(&mut iter, &mut vm).expect("an item");
    assert_eq!(first, Value::Ref(inner));
    assert_eq!(refs(&vm, inner), 2);
    iter.drop_with_heap(&mut vm.heap);
    assert_eq!(refs(&vm, outer), 0);
    assert_eq!(refs(&vm, inner), 1);
    first.drop_with_heap(&mut vm.heap);
    assert_eq!(live(&vm), 0);
}

#[test]
fn a_refused_pair_strands_the_clones() {
    let mut vm = limited(3);
    let key = allocate(&mut vm, HeapData::Str("k".to_owned()));
    let entries = vec![(Value::Ref(key), Value::Int(1))];
    let dict_id = allocate(&mut vm, HeapData::Dict(Dict { entries }));
    let view_id = allocate(&mut vm, HeapData::DictItemsView(DictView { dict_id }));
    let mut iter = MontyIter::new(Value::Ref(view_id), &mut vm).expect("an iterable");
    let error = iter.for_next(&mut vm).expect_err("no allocation is left");
    assert!(matches!(error, RunError::Resource(ResourceError::Allocation)));
    assert_eq!(refs(&vm, key), 2);
    assert_eq!(iter.index, 0);
}

#[test]
fn get_heap_item_reads_and_checks() {
    let mut vm = machine();
    let list = allocate(&mut vm, HeapData::List(ints(&[4])));
    assert!(matches!(get_heap_item(&mut vm, list, 0, None), Ok(Some(Value::Int(4)))));
    assert!(matches!(get_heap_item(&mut vm, list, 1, None), Ok(None)));
    let set = allocate(&mut vm, HeapData::PySet(ints(&[5])));
    assert!(matches!(get_heap_item(&mut vm, set, 0, Some(1)), Ok(Some(Value::Int(5)))));
    assert!(matches!(get_heap_item(&mut vm, set, 0, Some(2)), Err(RunError::SetChangedSize)));
}

// Ranges.

fn range_items(start: i64, stop: i64, step: i64) -> Vec<Value> {
    items_of(HeapData::Range(Range { start, stop, step }))
}

#[test]
fn ranges_are_walked_in_steps() {
    assert_eq!(range_items(0, 4, 1), ints(&[0, 1, 2, 3]));
    assert_eq!(range_items(2, 10, 3), ints(&[2, 5, 8]));
    assert_eq!(range_items(5, -5, -4), ints(&[5, 1, -3]));
    assert_eq!(range_items(3, 3, 1), Vec::new());
    assert_eq!(range_items(3, 0, 1), Vec::new());
    assert_eq!(range_items(0, 3, -1), Vec::new());
    assert_eq!(range_items(i64::MAX - 1, i64::MAX, 1), ints(&[i64::MAX - 1]));
    assert_eq!(range_items(i64::MIN + 1, i64::MIN, -2), ints(&[i64::MIN + 1]));
    assert_eq!(range_items(i64::MIN, i64::MAX, i64::MAX), ints(&[i64::MIN, -1, i64::MAX - 1]));
}

#[test]
fn ranges_are_counted() {
    assert_eq!(Range { start: 0, stop: 10, step: 3 }.len(), 4);
    assert_eq!(Range { start: 10, stop: 0, step: -3 }.len(), 4);
    assert_eq!(Range { start: 0, stop: -1, step: 3 }.len(), 0);
    assert_eq!(Range { start: i64::MIN, stop: i64::MAX, step: 1 }.len(), usize::MAX);
}

#[test]
fn a_range_is_not_kept_alive() {
    let mut vm = machine();
    let id = allocate(&mut vm, HeapData::Range(Range { start: 0, stop: 2, step: 1 }));
    let iter = MontyIter::new(Value::Ref(id), &mut vm).expect("an iterable");
    assert_eq!(live(&vm), 0);
    assert_eq!(*iter.value(), Value::PyNone);
    assert!(!iter.has_refs());
    assert_eq!(drain(iter, &mut vm), ints(&[0, 1]));
}

// Strings and bytes.

#[test]
fn strings_are_walked_by_character() {
    let text = "aé日😀";
    let mut vm = machine();
    let id = allocate(&mut vm, HeapData::Str(text.to_owned()));
    let mut iter = MontyIter::new(Value::Ref(id), &mut vm).expect("an iterable");
    assert_eq!(live(&vm), 0);
    let mut offsets = Vec::new();
    let mut found = Vec::new();
    assert_eq!(iter.size_hint(&vm.heap), 4);
    while let Some(value) = item(&mut iter, &mut vm) {
        found.push(text_of(&vm, &value));
        if let IterValue::IterStr { byte_offset, .. } = &iter.iter_value {
            offsets.push(*byte_offset);
        }
    }
    assert_eq!(found, ["a", "é", "日", "😀"]);
    assert_eq!(offsets, [1, 3, 6, 10]);
    assert_eq!(iter.size_hint(&vm.heap), 0);
    assert_eq!(live(&vm), 4);
}

#[test]
fn interned_strings_and_bytes_are_walked() {
    let interns = Interns { strings: vec!["".to_owned(), "xy".to_owned()], bytes: vec![vec![9, 200]] };
    let mut vm = VM::new(NoLimitTracker, interns);
    let iter = MontyIter::new(Value::InternString(StringId(1)), &mut vm).expect("an iterable");
    let found: Vec<String> = drain(iter, &mut vm).iter().map(|value| text_of(&vm, value)).collect();
    assert_eq!(found, ["x", "y"]);
    let iter = MontyIter::new(Value::InternString(StringId(0)), &mut vm).expect("an iterable");
    assert_eq!(drain(iter, &mut vm), Vec::new());
    let iter = MontyIter::new(Value::InternBytes(BytesId(0)), &mut vm).expect("an iterable");
    assert_eq!(*iter.value(), Value::InternBytes(BytesId(0)));
    assert_eq!(iter.size_hint(&vm.heap), 2);
    assert_eq!(drain(iter, &mut vm), ints(&[9, 200]));
}

#[test]
fn a_refused_character_is_passed_over() {
    let mut vm = limited(1);
    let id = allocate(&mut vm, HeapData::Str("éb".to_owned()));
    let mut iter = MontyIter::new(Value::Ref(id), &mut vm).expect("an iterable");
    let error = iter.for_next(&mut vm).expect_err("no allocation is left");
    assert_eq!(error.exc_type(), ExcType::MemoryError);
    assert_eq!(error_text(&error), "allocation limit exceeded");
    assert_eq!(iter.index, 1);
    assert!(matches!(iter.iter_value, IterValue::IterStr { byte_offset: 2, .. }));
}

#[test]
fn sources_begin_at_the_beginning() {
    let range = IterValue::from_range(&Range { start: 4, stop: 9, step: 2 });
    assert!(matches!(range, IterValue::Range { next: 4, step: 2, len: 3 }));
    match IterValue::from_str("né") {
        IterValue::IterStr { string, byte_offset, len } => assert_eq!((string.as_str(), byte_offset, len), ("né", 0, 2)),
        other => panic!("unexpected: {other:?}"),
    }
    let interns = Interns { strings: Vec::new(), bytes: vec![vec![1, 2, 3]] };
    let bytes = IterValue::from_intern_bytes(BytesId(0), &interns);
    assert!(matches!(bytes, IterValue::InternBytes { bytes_id: BytesId(0), len: 3 }));
    let mut vm = machine();
    let list = allocate(&mut vm, HeapData::List(ints(&[1])));
    let source = IterValue::from_heap_data(list, &vm.heap).expect("an iterable");
    assert!(matches!(source, IterValue::HeapRef { len: None, checks_mutation: false, .. }));
    let set = allocate(&mut vm, HeapData::PySet(ints(&[1])));
    let source = IterValue::new(&Value::Ref(set), &vm).expect("an iterable");
    assert!(matches!(source, IterValue::HeapRef { len: Some(1), checks_mutation: true, .. }));
    let cell = allocate(&mut vm, HeapData::Cell(Value::PyNone));
    assert!(IterValue::from_heap_data(cell, &vm.heap).is_none());
}

// Construction.

#[test]
fn iter_takes_one_or_two_arguments() {
    let mut vm = machine();
    let error = MontyIter::init(&mut vm, ArgValues::Empty).expect_err("no argument");
    assert_eq!(error.exc_type(), ExcType::TypeError);
    assert_eq!(error_text(&error), "iter expected at least 1 argument, got 0");
    let error = MontyIter::init(&mut vm, ArgValues::Many(Vec::new())).expect_err("no argument");
    assert!(matches!(error, RunError::TooFewArguments));
    let id = allocate(&mut vm, HeapData::List(Vec::new()));
    let three = vec![Value::Ref(id), Value::Int(1), Value::PyNone];
    let error = MontyIter::init(&mut vm, ArgValues::Many(three)).expect_err("too many arguments");
    assert_eq!(error.exc_type(), ExcType::TypeError);
    assert_eq!(error_text(&error), "iter expected at most 2 arguments, got 3");
    assert_eq!(live(&vm), 0);
    let twelve: Vec<Value> = (0..12).map(Value::Int).collect();
    let error = MontyIter::init(&mut vm, ArgValues::Many(twelve)).expect_err("too many arguments");
    assert_eq!(error_text(&error), "iter expected at most 2 arguments, got 12");
    let (one, two) = ArgValues::Two(Value::Int(1), Value::Int(2)).get_one_two_args(&mut vm.heap).expect("two");
    assert_eq!((one, two), (Value::Int(1), Some(Value::Int(2))));
    let (one, two) = ArgValues::Many(ints(&[5])).get_one_two_args(&mut vm.heap).expect("one");
    assert_eq!((one, two), (Value::Int(5), None));
}

#[test]
fn iter_takes_no_keywords() {
    let mut vm = machine();
    let list = allocate(&mut vm, HeapData::List(Vec::new()));
    let named = allocate(&mut vm, HeapData::List(Vec::new()));
    let kwargs = vec![(StringId(0), Value::Ref(named)), (StringId(1), Value::Int(2))];
    let args = ArgValues::ArgsKargs { args: vec![Value::Ref(list)], kwargs };
    let error = MontyIter::init(&mut vm, args).expect_err("a keyword");
    assert_eq!(error.exc_type(), ExcType::TypeError);
    assert_eq!(error_text(&error), "iter() takes no keyword arguments");
    assert_eq!(live(&vm), 0);
    let only = ArgValues::ArgsKargs { args: Vec::new(), kwargs: vec![(StringId(0), Value::Int(1))] };
    assert!(matches!(MontyIter::init(&mut vm, only), Err(RunError::KeywordArguments)));
    let list = allocate(&mut vm, HeapData::List(ints(&[4])));
    let args = ArgValues::ArgsKargs { args: vec![Value::Ref(list)], kwargs: Vec::new() };
    let it = MontyIter::init(&mut vm, args).expect("an iterator");
    assert!(matches!(next_now(&mut vm, &it, None), Ok(Value::Int(4))));
}

#[test]
fn what_cannot_be_iterated_is_named() {
    let mut vm = machine();
    for (value, message) in [
        (Value::Int(1), "'int' object is not iterable"),
        (Value::PyNone, "'NoneType' object is not iterable"),
        (Value::Bool(true), "'bool' object is not iterable"),
        (Value::DefFunction(0), "'function' object is not iterable"),
        (Value::Builtin(0), "'builtin_function_or_method' object is not iterable"),
    ] {
        let error = MontyIter::init(&mut vm, ArgValues::One(value)).expect_err("not iterable");
        assert_eq!(error.exc_type(), ExcType::TypeError);
        assert_eq!(error_text(&error), message);
    }
    let id = allocate(&mut vm, HeapData::Cell(Value::Int(1)));
    let error = MontyIter::init(&mut vm, ArgValues::One(Value::Ref(id))).expect_err("not iterable");
    assert_eq!(error_text(&error), "'cell' object is not iterable");
    assert_eq!(live(&vm), 0);
}

#[test]
fn iter_of_an_iterator_is_itself() {
    let mut vm = machine();
    let list = allocate(&mut vm, HeapData::List(ints(&[1])));
    let made = MontyIter::init(&mut vm, ArgValues::One(Value::Ref(list))).expect("an iterator");
    let id = made.ref_id().expect("an iterator");
    assert_eq!(refs(&vm, id), 1);
    let entries = vm.heap.entries.len();
    let again = MontyIter::init(&mut vm, ArgValues::One(made)).expect("an iterator");
    assert_eq!(again, Value::Ref(id));
    assert_eq!(refs(&vm, id), 1);
    assert_eq!(vm.heap.entries.len(), entries);
    let driven = MontyIter::init(&mut vm, ArgValues::Two(Value::Builtin(0), Value::Int(1))).expect("an iterator");
    let id = driven.ref_id();
    let again = MontyIter::init(&mut vm, ArgValues::One(driven)).expect("an iterator");
    assert_eq!(again.ref_id(), id);
}

#[test]
fn only_what_can_be_called_is_driven() {
    let mut vm = machine();
    let object = || FunctionObject { function: 0, captured: Vec::new() };
    let closure = allocate(&mut vm, HeapData::Closure(object()));
    let defaults = allocate(&mut vm, HeapData::FunctionDefaults(object()));
    let host = allocate(&mut vm, HeapData::ExtFunction("f".to_owned()));
    let list = allocate(&mut vm, HeapData::List(Vec::new()));
    for value in [
        Value::Builtin(1),
        Value::ModuleFunction(1),
        Value::DefFunction(1),
        Value::ExtFunction(1),
        Value::Ref(closure),
        Value::Ref(defaults),
        Value::Ref(host),
    ] {
        assert!(MontyIter::is_callable(&value, &vm));
    }
    for value in [Value::PyNone, Value::Int(1), Value::Bool(true), Value::InternString(StringId(0)), Value::Ref(list)] {
        assert!(!MontyIter::is_callable(&value, &vm));
    }
    let before = live(&vm);
    let sentinel = allocate(&mut vm, HeapData::List(Vec::new()));
    let error = MontyIter::init(&mut vm, ArgValues::Two(Value::Ref(list), Value::Ref(sentinel)))
        .expect_err("a list cannot be called");
    assert_eq!(error.exc_type(), ExcType::TypeError);
    assert_eq!(error_text(&error), "iter(v, w): v must be callable");
    assert_eq!(live(&vm), before - 1);
}

#[test]
fn a_driven_iterator_owns_its_pair_alone() {
    let mut vm = machine();
    let callable = allocate(&mut vm, HeapData::ExtFunction("f".to_owned()));
    let sentinel = allocate(&mut vm, HeapData::List(Vec::new()));
    assert!(!vm.heap.potential_cycle);
    let made = MontyIter::init(&mut vm, ArgValues::Two(Value::Ref(callable), Value::Ref(sentinel)))
        .expect("an iterator");
    assert!(vm.heap.potential_cycle);
    assert_eq!(live(&vm), 4);
    let id = made.ref_id().expect("an iterator");
    let pair = match vm.heap.get_mut(id) {
        HeapData::Iter(iter) => {
            assert!(iter.has_refs());
            let mut owned = Vec::new();
            iter.py_dec_ref_ids(&mut owned);
            assert_eq!(owned.len(), 1);
            assert_eq!(*iter.value(), Value::Ref(owned[0]));
            assert!(matches!(iter.iter_value, IterValue::CallableSentinel { pair, done: false } if pair == owned[0]));
            assert_eq!(iter.index, 0);
            assert_eq!(iter.py_estimate_size(), std::mem::size_of::<MontyIter>());
            owned[0]
        }
        _ => panic!("not an iterator"),
    };
    match vm.heap.get(pair) {
        HeapData::Tuple(tuple) => assert_eq!(tuple.as_slice(), &[Value::Ref(callable), Value::Ref(sentinel)][..]),
        _ => panic!("not a tuple"),
    }
    for id in [id, pair, callable, sentinel] {
        assert_eq!(refs(&vm, id), 1);
    }
    made.drop_with_heap(&mut vm.heap);
    assert_eq!(live(&vm), 0);
}

#[test]
fn refused_construction_gives_everything_back() {
    for budget in [2, 3] {
        let mut vm = limited(budget);
        let callable = allocate(&mut vm, HeapData::ExtFunction("f".to_owned()));
        let sentinel = allocate(&mut vm, HeapData::List(Vec::new()));
        let held = Value::Ref(callable).clone_with_heap(&mut vm.heap);
        let error = MontyIter::init(&mut vm, ArgValues::Two(Value::Ref(callable), Value::Ref(sentinel)))
            .expect_err("no allocation is left");
        assert!(matches!(error, RunError::Resource(ResourceError::Allocation)));
        assert_eq!(refs(&vm, callable), 1);
        assert_eq!(live(&vm), 1);
        held.drop_with_heap(&mut vm.heap);
        assert_eq!(live(&vm), 0);
    }
}

#[test]
fn the_same_value_may_be_callable_and_sentinel() {
    for budget in [1, 2, 3] {
        let mut vm = limited(budget);
        let callable = allocate(&mut vm, HeapData::ExtFunction("f".to_owned()));
        let again = Value::Ref(callable).clone_with_heap(&mut vm.heap);
        let made = MontyIter::init(&mut vm, ArgValues::Two(Value::Ref(callable), again));
        assert_eq!(made.is_ok(), budget == 3);
        if let Ok(made) = made {
            assert_eq!(refs(&vm, callable), 2);
            made.drop_with_heap(&mut vm.heap);
        }
        assert_eq!(live(&vm), 0);
    }
}

#[test]
fn a_refused_iterator_over_a_container_strands_one_count() {
    let mut vm = limited(1);
    let list = allocate(&mut vm, HeapData::List(Vec::new()));
    let error = MontyIter::init(&mut vm, ArgValues::One(Value::Ref(list))).expect_err("no allocation is left");
    assert!(matches!(error, RunError::Resource(ResourceError::Allocation)));
    assert_eq!(refs(&vm, list), 1);
}

// `next`.

fn next_now<T: ResourceTracker>(vm: &mut VM<T>, iterator: &Value, default: Option<Value>) -> Result<Value, RunError> {
    match iterator_next(iterator, default, vm) {
        Ok(Next::Value(value)) => Ok(value),
        Ok(Next::Call(pending)) => panic!("unexpected: {pending:?}"),
        Err(error) => Err(error),
    }
}

/// A `next` whose callable gives `outcome`, which is the sentinel or not.
fn next_with<T: ResourceTracker>(
    vm: &mut VM<T>,
    iterator: &Value,
    default: Option<Value>,
    outcome: Result<Value, RunError>,
    equal: Result<bool, ResourceError>,
) -> Result<Value, RunError> {
    match iterator_next(iterator, default, vm) {
        Ok(Next::Call(pending)) => {
            assert!(!vm.gc_due());
            // The call leaves the frame state disturbed.
            vm.frame_depth += 3;
            vm.instruction_ip = 999;
            pending.called(vm, outcome)?.compared(vm, equal)
        }
        Ok(Next::Value(value)) => panic!("unexpected: {value:?}"),
        Err(error) => Err(error),
    }
}

#[test]
fn next_walks_and_stops() {
    let mut vm = machine();
    let list = allocate(&mut vm, HeapData::List(ints(&[1, 2])));
    let it = MontyIter::init(&mut vm, ArgValues::One(Value::Ref(list))).expect("an iterator");
    assert!(matches!(next_now(&mut vm, &it, None), Ok(Value::Int(1))));
    let unused = allocate(&mut vm, HeapData::List(Vec::new()));
    assert!(matches!(next_now(&mut vm, &it, Some(Value::Ref(unused))), Ok(Value::Int(2))));
    assert_eq!(refs(&vm, unused), 0);
    let used = allocate(&mut vm, HeapData::List(Vec::new()));
    let last = next_now(&mut vm, &it, Some(Value::Ref(used))).expect("the default");
    assert_eq!(last, Value::Ref(used));
    assert_eq!(refs(&vm, used), 1);
    let error = next_now(&mut vm, &it, None).expect_err("nothing is left");
    assert_eq!(error.exc_type(), ExcType::StopIteration);
    assert_eq!(error.message(), None);
}

#[test]
fn next_wants_an_iterator() {
    let mut vm = machine();
    let default = allocate(&mut vm, HeapData::List(Vec::new()));
    let error = next_now(&mut vm, &Value::Int(1), Some(Value::Ref(default))).expect_err("no iterator");
    assert_eq!(error_text(&error), "'int' object is not iterable");
    assert_eq!(live(&vm), 0);
    let list = allocate(&mut vm, HeapData::List(Vec::new()));
    let default = allocate(&mut vm, HeapData::List(Vec::new()));
    let error = next_now(&mut vm, &Value::Ref(list), Some(Value::Ref(default))).expect_err("no iterator");
    assert_eq!(error.exc_type(), ExcType::TypeError);
    assert_eq!(error_text(&error), "'list' object is not an iterator");
    assert_eq!(refs(&vm, default), 0);
    assert!(matches!(vm.heap.read(list), HeapReadOutput::Other(Type::List)));
}

#[test]
fn a_failed_advance_drops_the_default() {
    let mut vm = machine();
    let id = allocate(&mut vm, dict(&[1]));
    let held = Value::Ref(id).clone_with_heap(&mut vm.heap);
    let it = MontyIter::init(&mut vm, ArgValues::One(Value::Ref(id))).expect("an iterator");
    if let HeapData::Dict(dict) = vm.heap.get_mut(id) {
        dict.entries.clear();
    }
    let default = allocate(&mut vm, HeapData::List(Vec::new()));
    let error = next_now(&mut vm, &it, Some(Value::Ref(default))).expect_err("a changed dict");
    assert!(matches!(error, RunError::DictChangedSize));
    assert_eq!(refs(&vm, default), 0);
    it.drop_with_heap(&mut vm.heap);
    held.drop_with_heap(&mut vm.heap);
    assert_eq!(live(&vm), 0);
}

#[test]
fn a_driven_iterator_yields_until_the_sentinel_and_stays_exhausted() {
    let mut vm = machine();
    vm.frame_depth = 2;
    vm.instruction_ip = 41;
    let state = vm.frame_state();
    let it = MontyIter::init(&mut vm, ArgValues::Two(Value::DefFunction(0), Value::Int(0))).expect("an iterator");
    let value = next_with(&mut vm, &it, None, Ok(Value::Int(5)), Ok(false)).expect("a value");
    assert_eq!(value, Value::Int(5));
    let stop = next_with(&mut vm, &it, Some(Value::Int(-1)), Ok(Value::Int(0)), Ok(true)).expect("the default");
    assert_eq!(stop, Value::Int(-1));
    assert_eq!((vm.frame_state(), vm.gc_pause_depth), (state, 0));
    // Nothing is called any more.
    assert!(matches!(next_now(&mut vm, &it, Some(Value::Int(7))), Ok(Value::Int(7))));
    assert!(matches!(next_now(&mut vm, &it, None), Err(RunError::StopIteration)));
    it.drop_with_heap(&mut vm.heap);
    assert_eq!(live(&vm), 0);
}

#[test]
fn an_exception_leaves_a_driven_iterator_live() {
    let mut vm = machine();
    let state = vm.frame_state();
    let callable = allocate(&mut vm, HeapData::ExtFunction("f".to_owned()));
    let it = MontyIter::init(&mut vm, ArgValues::Two(Value::Ref(callable), Value::Int(0))).expect("an iterator");
    let default = allocate(&mut vm, HeapData::List(Vec::new()));
    for exc_type in [ExcType::ValueError, ExcType::StopIteration] {
        let raised = Exception { exc_type, message: Some("as it was".to_owned()) };
        let held = Value::Ref(default).clone_with_heap(&mut vm.heap);
        let error = next_with(&mut vm, &it, Some(held), Err(RunError::Raised(raised)), Ok(false))
            .expect_err("the exception");
        assert_eq!(error.exc_type(), exc_type);
        assert_eq!(error_text(&error), "as it was");
        assert_eq!((vm.frame_state(), vm.gc_pause_depth), (state, 0));
        assert_eq!((refs(&vm, default), refs(&vm, callable)), (1, 1));
    }
    let value = next_with(&mut vm, &it, None, Ok(Value::Int(3)), Ok(false)).expect("a value");
    assert_eq!(value, Value::Int(3));
}

#[test]
fn a_failed_comparison_leaves_a_driven_iterator_live() {
    let mut vm = machine();
    let state = vm.frame_state();
    let it = MontyIter::init(&mut vm, ArgValues::Two(Value::DefFunction(0), Value::Int(0))).expect("an iterator");
    let produced = allocate(&mut vm, HeapData::List(Vec::new()));
    let error = next_with(&mut vm, &it, None, Ok(Value::Ref(produced)), Err(ResourceError::Time))
        .expect_err("the comparison");
    assert_eq!(error.exc_type(), ExcType::TimeoutError);
    assert_eq!(error_text(&error), "time limit exceeded");
    assert_eq!(refs(&vm, produced), 0);
    assert_eq!((vm.frame_state(), vm.gc_pause_depth), (state, 0));
    assert!(next_with(&mut vm, &it, None, Ok(Value::Int(1)), Ok(false)).is_ok());
}

#[test]
fn exhaustion_during_a_step_wins() {
    let mut vm = machine();
    let it = MontyIter::init(&mut vm, ArgValues::Two(Value::DefFunction(0), Value::Int(0))).expect("an iterator");
    let outer = match iterator_next(&it, Some(Value::Int(-1)), &mut vm) {
        Ok(Next::Call(pending)) => pending,
        other => panic!("unexpected: {other:?}"),
    };
    // The callable advances the iterator itself, which meets the sentinel there.
    assert_eq!(vm.gc_pause_depth, 1);
    let inner = next_with(&mut vm, &it, Some(Value::Int(-2)), Ok(Value::Int(0)), Ok(true)).expect("the default");
    assert_eq!(inner, Value::Int(-2));
    assert_eq!(vm.gc_pause_depth, 1);
    let late = allocate(&mut vm, HeapData::List(Vec::new()));
    let produced = outer.called(&mut vm, Ok(Value::Ref(late))).expect("a value");
    let result = produced.compared(&mut vm, Ok(false)).expect("the default");
    assert_eq!(result, Value::Int(-1));
    assert_eq!(refs(&vm, late), 0);
    assert_eq!(vm.gc_pause_depth, 0);
    assert_eq!(vm.frame_depth, 0);
}

#[test]
fn heap_iterators_advance_like_the_others() {
    let mut vm = machine();
    let range = allocate(&mut vm, HeapData::Range(Range { start: 3, stop: 7, step: 2 }));
    let text = allocate(&mut vm, HeapData::Str("hé".to_owned()));
    let (_, pairs) = view(&mut vm, &[1], HeapData::DictItemsView);
    let mut found = Vec::new();
    for id in [range, text, pairs] {
        let it = MontyIter::init(&mut vm, ArgValues::One(Value::Ref(id))).expect("an iterator");
        let iterator = HeapRead { id: it.ref_id().expect("an iterator") };
        let mut count: usize = 0;
        loop {
            match iterator.advance(&mut vm) {
                Ok(Advance::Item(value)) => found.push(value),
                Ok(Advance::Exhausted) => break,
                other => panic!("unexpected: {other:?}"),
            }
            count += 1;
        }
        assert!(matches!(iterator.advance(&mut vm), Ok(Advance::Exhausted)));
        assert!(count > 0);
    }
    assert_eq!(found[..2], ints(&[3, 5])[..]);
    assert_eq!((text_of(&vm, &found[2]), text_of(&vm, &found[3])), ("h".to_owned(), "é".to_owned()));
    assert_eq!(found.len(), 5);
}

#[test]
fn a_heap_iterator_passes_over_a_refused_character() {
    let mut vm = limited(2);
    let text = allocate(&mut vm, HeapData::Str("ab".to_owned()));
    let it = MontyIter::init(&mut vm, ArgValues::One(Value::Ref(text))).expect("an iterator");
    let iterator = HeapRead { id: it.ref_id().expect("an iterator") };
    assert!(matches!(iterator.advance(&mut vm), Err(RunError::Resource(ResourceError::Allocation))));
    match vm.heap.get(iterator.id) {
        HeapData::Iter(iter) => assert_eq!(iter.index, 1),
        _ => panic!("not an iterator"),
    }
}

// Draining.

#[test]
fn size_hint_tells_what_is_left() {
    let mut vm = machine();
    let id = allocate(&mut vm, HeapData::Range(Range { start: 0, stop: 5, step: 2 }));
    let mut iter = MontyIter::new(Value::Ref(id), &mut vm).expect("an iterable");
    for left in [3, 2, 1] {
        assert_eq!(iter.size_hint(&vm.heap), left);
        assert!(item(&mut iter, &mut vm).is_some());
    }
    assert_eq!(iter.size_hint(&vm.heap), 0);
    assert!(item(&mut iter, &mut vm).is_none());
    iter.index = 10;
    assert_eq!(iter.size_hint(&vm.heap), 0);
    let pair = allocate_tuple(Tuple::pair(Value::DefFunction(0), Value::Int(0)), &mut vm.heap).expect("a pair");
    let pair_id = pair.ref_id().expect("a pair");
    let driven = MontyIter {
        index: 0,
        iter_value: IterValue::CallableSentinel { pair: pair_id, done: false },
        value: pair,
    };
    assert_eq!(driven.size_hint(&vm.heap), 0);
}

fn driven(vm: &mut VM<NoLimitTracker>) -> MontyIter {
    let pair = allocate_tuple(Tuple::pair(Value::DefFunction(0), Value::Int(0)), &mut vm.heap).expect("a pair");
    let id = pair.ref_id().expect("a pair");
    MontyIter { index: 0, iter_value: IterValue::CallableSentinel { pair: id, done: false }, value: pair }
}

#[test]
fn draining_calls_until_the_sentinel() {
    let mut vm = machine();
    let mut collected = driven(&mut vm).collect(&mut vm).expect("a call");
    for number in [4, 5, 0] {
        let pending = match collected {
            Collected::Call(pending) => pending,
            Collected::Done(items) => panic!("unexpected: {items:?}"),
        };
        vm.frame_depth = 8;
        let item = pending.called(&mut vm, Ok(Value::Int(number))).expect("a value");
        collected = item.compared(&mut vm, Ok(number == 0)).expect("more or the end");
    }
    match collected {
        Collected::Done(items) => assert_eq!(items, ints(&[4, 5])),
        Collected::Call(pending) => panic!("unexpected: {pending:?}"),
    }
    assert_eq!((live(&vm), vm.gc_pause_depth, vm.frame_depth), (0, 0, 0));
}

#[test]
fn draining_ends_with_an_exception() {
    let mut vm = machine();
    let pending = match driven(&mut vm).collect(&mut vm) {
        Ok(Collected::Call(pending)) => pending,
        other => panic!("unexpected: {other:?}"),
    };
    let raised = Exception { exc_type: ExcType::KeyError, message: None };
    let error = pending.called(&mut vm, Err(RunError::Raised(raised))).expect_err("the exception");
    assert_eq!((error.exc_type(), error.message()), (ExcType::KeyError, None));
    assert_eq!((live(&vm), vm.gc_pause_depth), (0, 0));
    let pending = match driven(&mut vm).collect(&mut vm) {
        Ok(Collected::Call(pending)) => pending,
        other => panic!("unexpected: {other:?}"),
    };
    let item = pending.called(&mut vm, Ok(Value::Int(1))).expect("a value");
    let error = item.compared(&mut vm, Err(ResourceError::Allocation)).expect_err("the comparison");
    assert_eq!(error.exc_type(), ExcType::MemoryError);
    assert_eq!((live(&vm), vm.gc_pause_depth), (0, 0));
}

#[test]
fn a_bare_driven_iterator_is_exhausted_by_the_sentinel() {
    let mut vm = machine();
    let mut iter = driven(&mut vm);
    assert!(matches!(iter.for_next(&mut vm), Ok(Advance::Call(_))));
    assert_eq!(iter.for_next_stepped(Some(Value::Int(3))), Some(Value::Int(3)));
    assert_eq!(iter.index, 1);
    assert_eq!(iter.for_next_stepped(None), None);
    assert!(matches!(iter.iter_value, IterValue::CallableSentinel { done: true, .. }));
    assert!(matches!(iter.for_next(&mut vm), Ok(Advance::Exhausted)));
}

#[test]
fn draining_a_changed_dict_fails() {
    let mut vm = machine();
    let id = allocate(&mut vm, dict(&[1, 2]));
    let iter = MontyIter::new(Value::Ref(id), &mut vm).expect("an iterable");
    if let HeapData::Dict(dict) = vm.heap.get_mut(id) {
        dict.entries.pop();
    }
    assert!(matches!(iter.collect(&mut vm), Err(RunError::DictChangedSize)));
    assert_eq!(live(&vm), 0);
}

#[test]
fn draining_strands_what_it_gathered_before_a_failure() {
    let mut vm = limited(2);
    let text = allocate(&mut vm, HeapData::Str("ab".to_owned()));
    let iter = MontyIter::new(Value::Ref(text), &mut vm).expect("an iterable");
    assert!(matches!(iter.collect(&mut vm), Err(RunError::Resource(ResourceError::Allocation))));
    assert_eq!(live(&vm), 1);
}

// Limits.

#[test]
fn time_is_up_only_beyond_the_limit() {
    assert_eq!(time_verdict(5, 5), Ok(()));
    assert_eq!(time_verdict(6, 5), Err(ResourceError::Time));
    assert_eq!(time_verdict(0, 0), Ok(()));
}

#[test]
fn the_clock_stops_every_advance() {
    let limits = ResourceLimits::new().max_millis(0);
    let interns = Interns { strings: Vec::new(), bytes: Vec::new() };
    let mut vm = VM::new(LimitedTracker::new(limits), interns);
    let list = allocate(&mut vm, HeapData::List(ints(&[1])));
    let mut iter = MontyIter::new(Value::Ref(list), &mut vm).expect("an iterable");
    while vm.heap.check_time().is_ok() {}
    let error = iter.for_next(&mut vm).expect_err("the time is up");
    assert_eq!(error.exc_type(), ExcType::TimeoutError);
    assert_eq!(error_text(&error), "time limit exceeded");
    assert_eq!(iter.index, 0);
    assert!(matches!(iter.collect(&mut vm), Err(RunError::Resource(ResourceError::Time))));
    assert_eq!(live(&vm), 0);
    let it = MontyIter::init(&mut vm, ArgValues::Two(Value::DefFunction(0), Value::Int(0))).expect("an iterator");
    let default = allocate(&mut vm, HeapData::List(Vec::new()));
    let error = next_now(&mut vm, &it, Some(Value::Ref(default))).expect_err("the time is up");
    assert!(matches!(error, RunError::Resource(ResourceError::Time)));
    assert_eq!((refs(&vm, default), vm.gc_pause_depth), (0, 0));
}

fn timed(millis: u64) -> VM<LimitedTracker> {
    let tracker = LimitedTracker::new(ResourceLimits::new().max_millis(millis));
    VM::new(tracker, Interns { strings: Vec::new(), bytes: Vec::new() })
}

#[test]
fn a_refusing_tracker_stops_for_next_in_every_state() {
    let mut vm = timed(1_000);
    let list = allocate(&mut vm, HeapData::List(ints(&[1, 2])));
    let mut iter = MontyIter::new(Value::Ref(list), &mut vm).expect("an iterable");
    assert_eq!(item(&mut iter, &mut vm), Some(Value::Int(1)));
    assert_eq!(item(&mut iter, &mut vm), Some(Value::Int(2)));
    assert_eq!(item(&mut iter, &mut vm), None);
    while vm.heap.check_time().is_ok() {}
    let error = iter.for_next(&mut vm).expect_err("the time is up");
    assert_eq!(error.exc_type(), ExcType::TimeoutError);
    assert_eq!((iter.index, refs(&vm, list)), (2, 1));
}

#[test]
fn a_refusing_tracker_ends_every_drive() {
    for millis in [0, 50] {
        let mut vm = timed(millis);
        let callable = allocate(&mut vm, HeapData::ExtFunction("f".to_owned()));
        let it = MontyIter::init(&mut vm, ArgValues::Two(Value::Ref(callable), Value::Int(1))).expect("an iterator");
        let iterator = HeapRead { id: it.ref_id().expect("an iterator") };
        let error = loop {
            match iterator.advance(&mut vm) {
                Ok(Advance::Call(step)) => {
                    let produced = step.called(&mut vm, Ok(Value::Int(0))).expect("a value");
                    let stepped = produced.compared(&mut vm, Ok(false)).expect("a value");
                    assert_eq!(iterator.advance_stepped(&mut vm, stepped), Some(Value::Int(0)));
                }
                Ok(other) => panic!("unexpected: {other:?}"),
                Err(error) => break error,
            }
        };
        assert!(vm.heap.check_time().is_err());
        assert_eq!(error.exc_type(), ExcType::TimeoutError);
        assert_eq!(error_text(&error), "time limit exceeded");
        assert_eq!((refs(&vm, callable), vm.gc_pause_depth, vm.frame_depth), (1, 0, 0));
    }
}

#[test]
fn a_ruling_decides_whether_a_step_begins() {
    let mut vm = machine();
    let pair = allocate_tuple(Tuple::pair(Value::DefFunction(3), Value::Int(1)), &mut vm.heap).expect("a pair");
    let id = pair.ref_id().expect("a pair");
    for error in [ResourceError::Time, ResourceError::Allocation] {
        let refused = step_under(&mut vm, id, Err(error)).expect_err("a refusal");
        assert!(matches!(refused, RunError::Resource(e) if e == error));
        assert_eq!(vm.gc_pause_depth, 0);
    }
    let step = step_under(&mut vm, id, Ok(())).expect("a step");
    assert_eq!((step.callable, step.sentinel), (Value::DefFunction(3), Value::Int(1)));
    assert_eq!(vm.gc_pause_depth, 1);
    vm.resume_gc();
    let mut iter = MontyIter {
        index: 0,
        iter_value: IterValue::CallableSentinel { pair: id, done: true },
        value: pair,
    };
    let refused = iter.for_next_under(&mut vm, Err(ResourceError::Time)).expect_err("a refusal");
    assert_eq!(refused.exc_type(), ExcType::TimeoutError);
    assert!(matches!(iter.for_next_under(&mut vm, Ok(())), Ok(Advance::Exhausted)));
}

#[test]
fn only_sound_iterators_fit() {
    let mut vm = VM::new(NoLimitTracker, Interns { strings: Vec::new(), bytes: vec![vec![1, 2]] });
    let list = allocate(&mut vm, HeapData::List(ints(&[1])));
    let (dict_id, view_id) = view(&mut vm, &[1], HeapData::DictKeysView);
    let text = |byte_offset: usize, len: usize| IterValue::IterStr { string: "éa".to_owned(), byte_offset, len };
    let heap_ref = |heap_id: HeapId, len: Option<usize>, checks_mutation: bool| IterValue::HeapRef {
        heap_id,
        len,
        checks_mutation,
    };
    let range = |next: i64, step: i64, len: usize| IterValue::Range { next, step, len };
    for (index, iter_value, value, expected) in [
        (1, text(2, 2), Value::PyNone, true),
        (1, text(1, 2), Value::PyNone, false),
        (1, text(2, 3), Value::PyNone, false),
        (3, text(3, 2), Value::PyNone, false),
        (1, text(2, 2), Value::Int(0), false),
        (0, range(0, i64::MAX, 2), Value::PyNone, true),
        (0, range(1, i64::MAX, 2), Value::PyNone, false),
        (1, range(1, i64::MAX, 2), Value::PyNone, true),
        (0, range(i64::MIN, i64::MIN, usize::MAX), Value::PyNone, false),
        (0, range(7, 0, usize::MAX), Value::PyNone, true),
        (0, IterValue::InternBytes { bytes_id: BytesId(0), len: 2 }, Value::InternBytes(BytesId(0)), true),
        (0, IterValue::InternBytes { bytes_id: BytesId(0), len: 3 }, Value::InternBytes(BytesId(0)), false),
        (0, IterValue::InternBytes { bytes_id: BytesId(1), len: 0 }, Value::InternBytes(BytesId(1)), false),
        (9, heap_ref(list, None, false), Value::Ref(list), true),
        (0, heap_ref(list, Some(1), false), Value::Ref(list), false),
        (0, heap_ref(list, None, false), Value::PyNone, false),
        (0, heap_ref(HeapId(77), None, false), Value::Ref(HeapId(77)), false),
        (0, heap_ref(view_id, Some(1), true), Value::Ref(view_id), true),
        (0, heap_ref(dict_id, Some(1), false), Value::Ref(dict_id), false),
        (0, IterValue::CallableSentinel { pair: list, done: false }, Value::Ref(list), false),
    ] {
        let iter = MontyIter { index, iter_value, value };
        assert_eq!(iter.fits(&vm), expected, "{iter:?}");
    }
    let driven = driven(&mut vm);
    assert!(driven.fits(&vm));
    // A view of something that is no dict.
    let odd = allocate(&mut vm, HeapData::DictValuesView(DictView { dict_id: list }));
    let iter = MontyIter { index: 0, iter_value: heap_ref(odd, Some(1), true), value: Value::Ref(odd) };
    assert!(!iter.fits(&vm));
}

#[test]
fn allocations_are_counted() {
    let mut vm = limited(2);
    assert!(vm.heap.allocate(HeapData::List(Vec::new())).is_ok());
    assert!(vm.heap.allocate(HeapData::List(Vec::new())).is_ok());
    assert_eq!(vm.heap.allocate(HeapData::List(Vec::new())), Err(ResourceError::Allocation));
    assert_eq!(vm.heap.allocations_since_gc, 2);
    let limits = ResourceLimits::new().max_allocations(3).max_millis(4);
    assert_eq!((limits.max_allocations, limits.max_millis), (Some(3), Some(4)));
}

// The collector.

#[test]
fn cycles_are_collected_and_reachable_iterators_kept() {
    let mut vm = machine();
    let first = allocate(&mut vm, HeapData::List(Vec::new()));
    let second = allocate(&mut vm, HeapData::List(vec![Value::Ref(first)]));
    if let HeapData::List(items) = vm.heap.get_mut(first) {
        items.push(Value::Ref(second));
    }
    let callable = allocate(&mut vm, HeapData::ExtFunction("f".to_owned()));
    let sentinel = allocate(&mut vm, HeapData::List(Vec::new()));
    // The cycle refers to the sentinel too.
    let shared = Value::Ref(sentinel).clone_with_heap(&mut vm.heap);
    if let HeapData::List(items) = vm.heap.get_mut(second) {
        items.push(shared);
    }
    let it = MontyIter::init(&mut vm, ArgValues::Two(Value::Ref(callable), Value::Ref(sentinel)))
        .expect("an iterator");
    let id = it.ref_id().expect("an iterator");
    let unrooted = allocate(&mut vm, HeapData::List(Vec::new()));
    assert_eq!(refs(&vm, sentinel), 2);
    vm.heap.allocations_since_gc = GC_INTERVAL;
    vm.pause_gc();
    assert!(!vm.collect_if_due(&[id]));
    assert_eq!(live(&vm), 7);
    vm.resume_gc();
    assert!(vm.collect_if_due(&[id]));
    for gone in [first, second, unrooted] {
        assert!(!vm.heap.is_live(gone));
    }
    for kept in [id, callable, sentinel] {
        assert_eq!(refs(&vm, kept), 1);
    }
    assert_eq!(live(&vm), 4);
    assert_eq!(vm.heap.allocations_since_gc, 0);
    let value = next_with(&mut vm, &it, None, Ok(Value::Int(1)), Ok(false)).expect("a value");
    assert_eq!(value, Value::Int(1));
    it.drop_with_heap(&mut vm.heap);
    assert_eq!(live(&vm), 0);
}

#[test]
fn a_collection_falls_due_unless_suspended() {
    let mut vm = machine();
    vm.heap.allocations_since_gc = GC_INTERVAL;
    assert!(!vm.gc_due());
    vm.heap.mark_potential_cycle();
    assert!(vm.gc_due());
    vm.pause_gc();
    vm.pause_gc();
    assert!(!vm.gc_due());
    vm.resume_gc();
    assert!(!vm.gc_due());
    vm.resume_gc();
    assert!(vm.gc_due());
    assert!(vm.collect_if_due(&[]));
    assert!(!vm.gc_due());
    assert!(!vm.collect_if_due(&[]));
}

#[test]
fn releasing_a_chain_frees_all_of_it() {
    let mut vm = machine();
    let last = allocate(&mut vm, HeapData::List(Vec::new()));
    let closure = allocate(&mut vm, HeapData::Closure(FunctionObject { function: 0, captured: vec![Value::Ref(last)] }));
    let cell = allocate(&mut vm, HeapData::Cell(Value::Ref(closure)));
    let held = Value::Ref(last).clone_with_heap(&mut vm.heap);
    let mut owned = Vec::new();
    vm.heap.get(closure).collect_child_ids(&mut owned);
    assert_eq!(owned, [last]);
    assert!(vm.heap.get(cell).has_refs());
    assert!(!vm.heap.get(last).has_refs());
    vm.heap.dec_ref(cell);
    assert_eq!((refs(&vm, cell), refs(&vm, closure), refs(&vm, last)), (0, 0, 1));
    held.drop_with_heap(&mut vm.heap);
    assert_eq!(live(&vm), 0);
}

// Messages.

#[test]
fn errors_say_what_went_wrong() {
    for (error, exc_type, message) in [
        (RunError::NotIterable(Type::FrozenSet), ExcType::TypeError, "'frozenset' object is not iterable"),
        (RunError::NotAnIterator(Type::DictKeys), ExcType::TypeError, "'dict_keys' object is not an iterator"),
        (RunError::NotCallable, ExcType::TypeError, "iter(v, w): v must be callable"),
        (RunError::TooFewArguments, ExcType::TypeError, "iter expected at least 1 argument, got 0"),
        (RunError::TooManyArguments(120), ExcType::TypeError, "iter expected at most 2 arguments, got 120"),
        (RunError::KeywordArguments, ExcType::TypeError, "iter() takes no keyword arguments"),
        (RunError::DictChangedSize, ExcType::RuntimeError, "dictionary changed size during iteration"),
        (RunError::SetChangedSize, ExcType::RuntimeError, "Set changed size during iteration"),
        (RunError::Resource(ResourceError::Allocation), ExcType::MemoryError, "allocation limit exceeded"),
        (RunError::Resource(ResourceError::Time), ExcType::TimeoutError, "time limit exceeded"),
    ] {
        assert_eq!(error.exc_type(), exc_type);
        assert_eq!(error_text(&error), message);
    }
    let names = [
        (Type::NamedTuple, "namedtuple"),
        (Type::Tuple, "tuple"),
        (Type::DictItems, "dict_items"),
        (Type::DictValues, "dict_values"),
        (Type::PySet, "set"),
        (Type::Range, "range"),
        (Type::Str, "str"),
        (Type::Bytes, "bytes"),
        (Type::Iterator, "iterator"),
        (Type::Dict, "dict"),
    ];
    for (t, name) in names {
        assert_eq!(t.name(), name);
    }
}
