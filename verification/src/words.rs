//! What programs are told: the names of types, the kinds of errors and their messages.
use vstd::prelude::*;

use crate::data::data_type;
use crate::error::{
    decimal, digit_text, error_message, error_type, name_of_type, ExcType, Exception,
    ResourceError, RunError, Type,
};
use crate::heap::value_type;
use crate::model::HeapModel;
use crate::value::Value;

verus! {

/// The number that a decimal digit stands for.
pub open spec fn digit_value(c: char) -> nat {
    (c as int - '0' as int) as nat
}

/// The number that a sequence of decimal digits stands for.
pub open spec fn number_of(text: Seq<char>) -> nat
    decreases text.len(),
{
    if text.len() == 0 {
        0
    } else {
        number_of(text.drop_last()) * 10 + digit_value(text.last())
    }
}

/// A number is written in decimal digits that stand for it, without a leading zero.
pub proof fn numbers_are_written_in_decimal(n: nat)
    ensures
        number_of(decimal(n)) == n,
        decimal(n).len() > 0,
        forall|k: int| 0 <= k < decimal(n).len() ==> '0' <= #[trigger] decimal(n)[k] <= '9',
        decimal(n).len() > 1 ==> decimal(n)[0] != '0',
    decreases n,
{
    reveal_with_fuel(number_of, 2);
    lemma_digit(n % 10);
    if n < 10 {
        let text = decimal(n);
        assert(text.drop_last() =~= Seq::<char>::empty());
    } else {
        let front = decimal(n / 10);
        numbers_are_written_in_decimal(n / 10);
        let text = decimal(n);
        assert(text =~= front.push(digit_text(n % 10)[0]));
        assert(text.drop_last() =~= front);
        if front.len() == 1 {
            assert(front.drop_last() =~= Seq::<char>::empty());
            assert(number_of(front) == digit_value(front[0]));
        }
    }
}

/// A digit is written as itself.
proof fn lemma_digit(d: nat)
    requires
        d < 10,
    ensures
        digit_text(d).len() == 1,
        '0' <= digit_text(d)[0] <= '9',
        digit_value(digit_text(d)[0]) == d,
{
    reveal_strlit("0");
    reveal_strlit("1");
    reveal_strlit("2");
    reveal_strlit("3");
    reveal_strlit("4");
    reveal_strlit("5");
    reveal_strlit("6");
    reveal_strlit("7");
    reveal_strlit("8");
    reveal_strlit("9");
}

/// The type of a value is that of its kind; of a reference, that of the entry.
pub proof fn values_have_the_type_of_their_kind(v: Value, h: HeapModel)
    ensures
        v is PyNone ==> value_type(v, h) == Type::NoneType,
        v is Bool ==> value_type(v, h) == Type::Bool,
        v is Int ==> value_type(v, h) == Type::Int,
        v is InternString ==> value_type(v, h) == Type::Str,
        v is InternBytes ==> value_type(v, h) == Type::Bytes,
        v is Builtin || v is ModuleFunction ==> value_type(v, h) == Type::BuiltinFunction,
        v is DefFunction || v is ExtFunction ==> value_type(v, h) == Type::Function,
        v matches Value::Ref(id) ==> {
            let data = h.data(id);
            let t = value_type(v, h);
            &&& t == data_type(data)
            &&& t == Type::List <==> data is List
            &&& t == Type::Tuple <==> data is Tuple
            &&& t == Type::NamedTuple <==> data is NamedTuple
            &&& t == Type::Dict <==> data is Dict
            &&& t == Type::DictKeys <==> data is DictKeysView
            &&& t == Type::DictItems <==> data is DictItemsView
            &&& t == Type::DictValues <==> data is DictValuesView
            &&& t == Type::Bytes <==> data is Bytes
            &&& t == Type::PySet <==> data is PySet
            &&& t == Type::FrozenSet <==> data is FrozenSet
            &&& t == Type::Str <==> data is Str
            &&& t == Type::Range <==> data is Range
            &&& t == Type::Iterator <==> data is Iter
            &&& t == Type::Function <==> data is Closure || data is FunctionDefaults
                || data is ExtFunction
            &&& t == Type::Cell <==> data is Cell
        },
{
}

/// Types are named as programs know them.
pub proof fn types_are_named_as_programs_know_them()
    ensures
        name_of_type(Type::NoneType) == "NoneType"@,
        name_of_type(Type::Bool) == "bool"@,
        name_of_type(Type::Int) == "int"@,
        name_of_type(Type::Str) == "str"@,
        name_of_type(Type::Bytes) == "bytes"@,
        name_of_type(Type::List) == "list"@,
        name_of_type(Type::Tuple) == "tuple"@,
        name_of_type(Type::NamedTuple) == "namedtuple"@,
        name_of_type(Type::Dict) == "dict"@,
        name_of_type(Type::DictKeys) == "dict_keys"@,
        name_of_type(Type::DictItems) == "dict_items"@,
        name_of_type(Type::DictValues) == "dict_values"@,
        name_of_type(Type::PySet) == "set"@,
        name_of_type(Type::FrozenSet) == "frozenset"@,
        name_of_type(Type::Range) == "range"@,
        name_of_type(Type::Iterator) == "iterator"@,
        name_of_type(Type::Function) == "function"@,
        name_of_type(Type::BuiltinFunction) == "builtin_function_or_method"@,
        name_of_type(Type::Cell) == "cell"@,
{
}

/// Errors about an object name its type, those about the number of arguments tell that number, and
/// each of the others has its own words. An exception of the program keeps its type and its message.
pub proof fn errors_say_what_went_wrong(t: Type, n: usize, exception: Exception)
    ensures
        error_message(RunError::NotIterable(t)) == Some(
            "'"@ + name_of_type(t) + "' object is not iterable"@,
        ),
        error_message(RunError::NotAnIterator(t)) == Some(
            "'"@ + name_of_type(t) + "' object is not an iterator"@,
        ),
        error_message(RunError::TooManyArguments(n)) == Some(
            "iter expected at most 2 arguments, got "@ + decimal(n as nat),
        ),
        error_message(RunError::TooFewArguments) == Some(
            "iter expected at least 1 argument, got 0"@,
        ),
        error_message(RunError::KeywordArguments) == Some("iter() takes no keyword arguments"@),
        error_message(RunError::NotCallable) == Some("iter(v, w): v must be callable"@),
        error_message(RunError::DictChangedSize) == Some(
            "dictionary changed size during iteration"@,
        ),
        error_message(RunError::SetChangedSize) == Some("Set changed size during iteration"@),
        error_message(RunError::StopIteration) is None,
        error_message(RunError::Resource(ResourceError::Allocation)) == Some(
            "allocation limit exceeded"@,
        ),
        error_message(RunError::Resource(ResourceError::Time)) == Some("time limit exceeded"@),
        exception.message is None <==> error_message(RunError::Raised(exception)) is None,
        exception.message matches Some(message) ==> error_message(RunError::Raised(exception))
            == Some(message@),
{
}

/// Misuse is a type error, a changed size a runtime error, exhaustion `StopIteration`, and a limit
/// has an error of its own kind. An exception of the program is caught as what it was raised.
pub proof fn errors_are_caught_as_what_they_are(e: RunError)
    ensures
        match e {
            RunError::NotIterable(_) => error_type(e) == ExcType::TypeError,
            RunError::NotAnIterator(_) => error_type(e) == ExcType::TypeError,
            RunError::NotCallable => error_type(e) == ExcType::TypeError,
            RunError::TooFewArguments => error_type(e) == ExcType::TypeError,
            RunError::TooManyArguments(_) => error_type(e) == ExcType::TypeError,
            RunError::KeywordArguments => error_type(e) == ExcType::TypeError,
            RunError::DictChangedSize => error_type(e) == ExcType::RuntimeError,
            RunError::SetChangedSize => error_type(e) == ExcType::RuntimeError,
            RunError::StopIteration => error_type(e) == ExcType::StopIteration,
            RunError::Resource(limit) => error_type(e) == if limit == ResourceError::Time {
                ExcType::TimeoutError
            } else {
                ExcType::MemoryError
            },
            RunError::Raised(exception) => error_type(e) == exception.exc_type,
        },
{
}

} // verus!
