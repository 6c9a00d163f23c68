//! What goes wrong while a program iterates, and how it is reported.
use vstd::prelude::*;
use vstd::string::StringExecFns;

verus! {

/// The types that error messages name.
#[derive(Clone, Copy, PartialEq, Eq, Structural, Debug)]
pub enum Type {
    NoneType,
    Bool,
    Int,
    Str,
    Bytes,
    List,
    Tuple,
    NamedTuple,
    Dict,
    DictKeys,
    DictItems,
    DictValues,
    PySet,
    FrozenSet,
    Range,
    Iterator,
    Function,
    BuiltinFunction,
    Cell,
}

/// The name of `t`, as a program sees it.
pub open spec fn name_of_type(t: Type) -> Seq<char> {
    match t {
        Type::NoneType => "NoneType"@,
        Type::Bool => "bool"@,
        Type::Int => "int"@,
        Type::Str => "str"@,
        Type::Bytes => "bytes"@,
        Type::List => "list"@,
        Type::Tuple => "tuple"@,
        Type::NamedTuple => "namedtuple"@,
        Type::Dict => "dict"@,
        Type::DictKeys => "dict_keys"@,
        Type::DictItems => "dict_items"@,
        Type::DictValues => "dict_values"@,
        Type::PySet => "set"@,
        Type::FrozenSet => "frozenset"@,
        Type::Range => "range"@,
        Type::Iterator => "iterator"@,
        Type::Function => "function"@,
        Type::BuiltinFunction => "builtin_function_or_method"@,
        Type::Cell => "cell"@,
    }
}

impl Type {
    /// The name of the type, as a program sees it.
    pub fn name(self) -> (name: &'static str)
        ensures
            name@ == name_of_type(self),
    {
        match self {
            Type::NoneType => "NoneType",
            Type::Bool => "bool",
            Type::Int => "int",
            Type::Str => "str",
            Type::Bytes => "bytes",
            Type::List => "list",
            Type::Tuple => "tuple",
            Type::NamedTuple => "namedtuple",
            Type::Dict => "dict",
            Type::DictKeys => "dict_keys",
            Type::DictItems => "dict_items",
            Type::DictValues => "dict_values",
            Type::PySet => "set",
            Type::FrozenSet => "frozenset",
            Type::Range => "range",
            Type::Iterator => "iterator",
            Type::Function => "function",
            Type::BuiltinFunction => "builtin_function_or_method",
            Type::Cell => "cell",
        }
    }
}

/// The exception types this library raises or carries.
#[derive(Clone, Copy, PartialEq, Eq, Structural, Debug)]
pub enum ExcType {
    AssertionError,
    IndexError,
    KeyError,
    MemoryError,
    RuntimeError,
    StopIteration,
    TimeoutError,
    TypeError,
    ValueError,
    ZeroDivisionError,
}

/// A resource limit that was exceeded.
#[derive(Clone, Copy, PartialEq, Eq, Structural, Debug)]
pub enum ResourceError {
    /// One allocation more than the limit allows was asked for.
    Allocation,
    /// The run has taken longer than the limit allows.
    Time,
}

/// An exception that the program itself raised.
#[derive(Debug)]
pub struct Exception {
    pub exc_type: ExcType,
    pub message: Option<String>,
}

/// Why an operation did not produce a value.
#[derive(Debug)]
pub enum RunError {
    /// A value of this type cannot be iterated.
    NotIterable(Type),
    /// A value of this type is not an iterator.
    NotAnIterator(Type),
    /// The first argument of `iter(callable, sentinel)` cannot be called.
    NotCallable,
    /// A call brought fewer arguments than the one it needs.
    TooFewArguments,
    /// A call brought this many arguments, and at most two are taken.
    TooManyArguments(usize),
    /// A call that takes positional arguments only brought a keyword.
    KeywordArguments,
    /// A dict changed size while it was iterated.
    DictChangedSize,
    /// A set changed size while it was iterated.
    SetChangedSize,
    /// The iterator has nothing more to give.
    StopIteration,
    /// A resource limit was exceeded.
    Resource(ResourceError),
    /// An exception that called code raised.
    Raised(Exception),
}

pub type RunResult<V> = Result<V, RunError>;

/// The text of a digit.
pub open spec fn digit_text(d: nat) -> Seq<char> {
    if d == 0 {
        "0"@
    } else if d == 1 {
        "1"@
    } else if d == 2 {
        "2"@
    } else if d == 3 {
        "3"@
    } else if d == 4 {
        "4"@
    } else if d == 5 {
        "5"@
    } else if d == 6 {
        "6"@
    } else if d == 7 {
        "7"@
    } else if d == 8 {
        "8"@
    } else {
        "9"@
    }
}

/// The text of `n` in decimal.
pub open spec fn decimal(n: nat) -> Seq<char>
    decreases n,
{
    if n < 10 {
        digit_text(n)
    } else {
        decimal(n / 10) + digit_text(n % 10)
    }
}

fn digit(d: usize) -> (text: &'static str)
    requires
        d < 10,
    ensures
        text@ == digit_text(d as nat),
{
    match d {
        0 => "0",
        1 => "1",
        2 => "2",
        3 => "3",
        4 => "4",
        5 => "5",
        6 => "6",
        7 => "7",
        8 => "8",
        _ => "9",
    }
}

fn append_decimal(text: &mut String, n: usize)
    ensures
        final(text)@ == old(text)@ + decimal(n as nat),
    decreases n,
{
    if n >= 10 {
        append_decimal(text, n / 10);
    }
    text.append(digit(n % 10));
    assert(text@ =~= old(text)@ + decimal(n as nat));
}

/// The exception type under which a program can catch `e`.
pub open spec fn error_type(e: RunError) -> ExcType {
    match e {
        RunError::NotIterable(_) | RunError::NotAnIterator(_) | RunError::NotCallable
        | RunError::TooFewArguments | RunError::TooManyArguments(_)
        | RunError::KeywordArguments => ExcType::TypeError,
        RunError::DictChangedSize | RunError::SetChangedSize => ExcType::RuntimeError,
        RunError::StopIteration => ExcType::StopIteration,
        RunError::Resource(ResourceError::Allocation) => ExcType::MemoryError,
        RunError::Resource(ResourceError::Time) => ExcType::TimeoutError,
        RunError::Raised(exception) => exception.exc_type,
    }
}

/// The message of `e`, where it has one.
pub open spec fn error_message(e: RunError) -> Option<Seq<char>> {
    match e {
        RunError::NotIterable(t) => Some("'"@ + name_of_type(t) + "' object is not iterable"@),
        RunError::NotAnIterator(t) => Some("'"@ + name_of_type(t) + "' object is not an iterator"@),
        RunError::NotCallable => Some("iter(v, w): v must be callable"@),
        RunError::TooFewArguments => Some("iter expected at least 1 argument, got 0"@),
        RunError::TooManyArguments(n) => Some(
            "iter expected at most 2 arguments, got "@ + decimal(n as nat),
        ),
        RunError::KeywordArguments => Some("iter() takes no keyword arguments"@),
        RunError::DictChangedSize => Some("dictionary changed size during iteration"@),
        RunError::SetChangedSize => Some("Set changed size during iteration"@),
        RunError::StopIteration => None,
        RunError::Resource(ResourceError::Allocation) => Some("allocation limit exceeded"@),
        RunError::Resource(ResourceError::Time) => Some("time limit exceeded"@),
        RunError::Raised(exception) => match exception.message {
            Some(message) => Some(message@),
            None => None,
        },
    }
}

impl RunError {
    /// The exception type under which a program can catch this error.
    pub fn exc_type(&self) -> (t: ExcType)
        ensures
            t == error_type(*self),
    {
        match self {
            RunError::NotIterable(_) => ExcType::TypeError,
            RunError::NotAnIterator(_) => ExcType::TypeError,
            RunError::NotCallable => ExcType::TypeError,
            RunError::TooFewArguments => ExcType::TypeError,
            RunError::TooManyArguments(_) => ExcType::TypeError,
            RunError::KeywordArguments => ExcType::TypeError,
            RunError::DictChangedSize => ExcType::RuntimeError,
            RunError::SetChangedSize => ExcType::RuntimeError,
            RunError::StopIteration => ExcType::StopIteration,
            RunError::Resource(ResourceError::Allocation) => ExcType::MemoryError,
            RunError::Resource(ResourceError::Time) => ExcType::TimeoutError,
            RunError::Raised(exception) => exception.exc_type,
        }
    }

    /// The message of this error, where it has one.
    pub fn message(&self) -> (message: Option<String>)
        ensures
            match message {
                Some(text) => error_message(*self) == Some(text@),
                None => error_message(*self) is None,
            },
    {
        match self {
            RunError::NotIterable(t) => {
                let mut text = String::new();
                text.append("'");
                text.append(t.name());
                text.append("' object is not iterable");
                assert(text@ =~= "'"@ + name_of_type(*t) + "' object is not iterable"@);
                Some(text)
            },
            RunError::NotAnIterator(t) => {
                let mut text = String::new();
                text.append("'");
                text.append(t.name());
                text.append("' object is not an iterator");
                assert(text@ =~= "'"@ + name_of_type(*t) + "' object is not an iterator"@);
                Some(text)
            },
            RunError::NotCallable => Some("iter(v, w): v must be callable".to_owned()),
            RunError::TooFewArguments => {
                Some("iter expected at least 1 argument, got 0".to_owned())
            },
            RunError::TooManyArguments(n) => {
                let mut text = "iter expected at most 2 arguments, got ".to_owned();
                append_decimal(&mut text, *n);
                Some(text)
            },
            RunError::KeywordArguments => Some("iter() takes no keyword arguments".to_owned()),
            RunError::DictChangedSize => {
                Some("dictionary changed size during iteration".to_owned())
            },
            RunError::SetChangedSize => Some("Set changed size during iteration".to_owned()),
            RunError::StopIteration => None,
            RunError::Resource(ResourceError::Allocation) => {
                Some("allocation limit exceeded".to_owned())
            },
            RunError::Resource(ResourceError::Time) => Some("time limit exceeded".to_owned()),
            RunError::Raised(exception) => {
                match &exception.message {
                    Some(message) => Some(message.clone()),
                    None => None,
                }
            },
        }
    }
}

} // verus!
