//! The arguments of a call.
use vstd::prelude::*;

use crate::error::{RunError, RunResult};
use crate::heap::Heap;
use crate::model::{lemma_backed_weaken, lemma_dropped, HeapModel};
use crate::resource::ResourceTracker;
use crate::value::{
    ids_of, lemma_ids_of_concat, lemma_occurrences_concat, occurrences, HeapId, StringId, Value,
};

verus! {

/// The arguments of a call, which own their references.
#[derive(Debug)]
pub enum ArgValues {
    Empty,
    One(Value),
    Two(Value, Value),
    Many(Vec<Value>),
    /// Positional arguments, and others by keyword.
    ArgsKargs { args: Vec<Value>, kwargs: Vec<(StringId, Value)> },
}

/// The arguments of a call: those by position, and those by keyword.
#[verifier::ext_equal]
pub struct ArgsModel {
    pub positional: Seq<Value>,
    pub keywords: Seq<(StringId, Value)>,
}

/// The values given by keyword.
pub open spec fn keyword_values(keywords: Seq<(StringId, Value)>) -> Seq<Value> {
    keywords.map_values(|keyword: (StringId, Value)| keyword.1)
}

impl ArgsModel {
    /// Every value that is given, those by position first.
    pub open spec fn values(self) -> Seq<Value> {
        self.positional + keyword_values(self.keywords)
    }
}

/// Arguments that are all given by position.
pub open spec fn positional(values: Seq<Value>) -> ArgsModel {
    ArgsModel { positional: values, keywords: Seq::empty() }
}

impl View for ArgValues {
    type V = ArgsModel;

    open spec fn view(&self) -> ArgsModel {
        match *self {
            ArgValues::Empty => positional(Seq::empty()),
            ArgValues::One(a) => positional(seq![a]),
            ArgValues::Two(a, b) => positional(seq![a, b]),
            ArgValues::Many(values) => positional(values@),
            ArgValues::ArgsKargs { args, kwargs } => ArgsModel {
                positional: args@,
                keywords: kwargs@,
            },
        }
    }
}

/// The heap once `values` are dropped, the last first.
pub open spec fn dropped_all(h: HeapModel, values: Seq<Value>) -> HeapModel
    decreases values.len(),
{
    if values.len() == 0 {
        h
    } else {
        dropped_all(h.dropped(values.last()), values.drop_last())
    }
}

/// Drops all of `values`, the last first.
fn drop_all<T: ResourceTracker>(values: Vec<Value>, heap: &mut Heap<T>)
    requires
        old(heap)@.owns(values@),
    ensures
        final(heap)@ == dropped_all(old(heap)@, values@),
        final(heap)@.counted(),
{
    let ghost all = values@;
    let mut rest = values;
    while rest.len() > 0
        invariant
            heap@.owns(rest@),
            dropped_all(heap@, rest@) == dropped_all(old(heap)@, all),
        decreases rest@.len(),
    {
        proof {
            lemma_dropped_last(heap@, rest@);
        }
        match rest.pop() {
            Some(value) => value.drop_with_heap(heap),
            None => {},
        }
    }
    assert(rest@ =~= Seq::<Value>::empty());
    proof {
        assert(ids_of(rest@) =~= Seq::<HeapId>::empty());
    }
}

/// Drops the values that are given by keyword, the last first. Those `before` them keep theirs.
fn drop_keywords<T: ResourceTracker>(
    Ghost(before): Ghost<Seq<Value>>,
    kwargs: Vec<(StringId, Value)>,
    heap: &mut Heap<T>,
)
    requires
        old(heap)@.owns(before + keyword_values(kwargs@)),
    ensures
        final(heap)@.owns(before),
        dropped_all(final(heap)@, before) == dropped_all(
            old(heap)@,
            before + keyword_values(kwargs@),
        ),
{
    let ghost all = before + keyword_values(kwargs@);
    let mut rest = kwargs;
    while rest.len() > 0
        invariant
            heap@.owns(before + keyword_values(rest@)),
            dropped_all(heap@, before + keyword_values(rest@)) == dropped_all(old(heap)@, all),
        decreases rest@.len(),
    {
        proof {
            let values = before + keyword_values(rest@);
            lemma_dropped_last(heap@, values);
            assert(values.drop_last() =~= before + keyword_values(rest@.drop_last()));
        }
        match rest.pop() {
            Some(keyword) => keyword.1.drop_with_heap(heap),
            None => {},
        }
    }
    assert(before + keyword_values(rest@) =~= before);
}

/// Dropping the last of several owners leaves the others theirs.
pub proof fn lemma_dropped_last(h: HeapModel, values: Seq<Value>)
    requires
        h.owns(values),
        values.len() > 0,
    ensures
        h.owns(seq![values.last()]),
        h.dropped(values.last()).owns(values.drop_last()),
{
    let v = values.last();
    let rest = values.drop_last();
    let swapped = seq![v] + rest;
    assert(values =~= rest + seq![v]);
    lemma_ids_of_concat(rest, seq![v]);
    lemma_ids_of_concat(seq![v], rest);
    assert forall|id: HeapId| #[trigger]
        occurrences(ids_of(swapped), id) <= occurrences(
            ids_of(values),
            id,
        ) by {
        lemma_occurrences_concat(
            ids_of(rest),
            ids_of(seq![v]),
            id,
        );
        lemma_occurrences_concat(
            ids_of(seq![v]),
            ids_of(rest),
            id,
        );
    }
    lemma_backed_weaken(
        h,
        ids_of(values),
        ids_of(swapped),
    );
    lemma_dropped(h, v, rest);
}

/// What a call that takes one or two positional arguments makes of `args`: the two, or an error, for
/// which all arguments are dropped.
pub open spec fn one_two_args(args: ArgsModel) -> RunResult<(Value, Option<Value>)> {
    let given = args.positional;
    if args.keywords.len() > 0 {
        Err(RunError::KeywordArguments)
    } else if given.len() == 0 {
        Err(RunError::TooFewArguments)
    } else if given.len() == 1 {
        Ok((given[0], None))
    } else if given.len() == 2 {
        Ok((given[0], Some(given[1])))
    } else {
        Err(RunError::TooManyArguments(given.len() as usize))
    }
}

/// What `one_two_args` makes of arguments that are all positional.
fn take_one_two<T: ResourceTracker>(values: Vec<Value>, heap: &mut Heap<T>) -> (r: RunResult<
    (Value, Option<Value>),
>)
    requires
        old(heap)@.owns(values@),
    ensures
        r == one_two_args(positional(values@)),
        final(heap)@ == if r is Ok {
            old(heap)@
        } else {
            dropped_all(old(heap)@, values@)
        },
{
    let mut values = values;
    let count = values.len();
    if count > 2 {
        drop_all(values, heap);
        return Err(RunError::TooManyArguments(count));
    }
    let second = if count == 2 {
        values.pop()
    } else {
        None
    };
    match values.pop() {
        Some(first) => Ok((first, second)),
        None => Err(RunError::TooFewArguments),
    }
}

impl ArgValues {
    /// The arguments of a call that takes one or two, by position. Any other number is an error, and
    /// so is a keyword; then all arguments are dropped.
    pub fn get_one_two_args<T: ResourceTracker>(self, heap: &mut Heap<T>) -> (r: RunResult<
        (Value, Option<Value>),
    >)
        requires
            old(heap)@.owns(self@.values()),
        ensures
            r == one_two_args(self@),
            final(heap)@ == if r is Ok {
                old(heap)@
            } else {
                dropped_all(old(heap)@, self@.values())
            },
    {
        let ghost given = self@;
        proof {
            assert(given.keywords.len() == 0 ==> given.values() =~= given.positional);
        }
        match self {
            ArgValues::Empty => Err(RunError::TooFewArguments),
            ArgValues::One(a) => Ok((a, None)),
            ArgValues::Two(a, b) => Ok((a, Some(b))),
            ArgValues::Many(values) => take_one_two(values, heap),
            ArgValues::ArgsKargs { args, kwargs } => {
                if kwargs.len() == 0 {
                    assert(given =~= positional(args@));
                    return take_one_two(args, heap);
                }
                drop_keywords(Ghost(args@), kwargs, heap);
                drop_all(args, heap);
                Err(RunError::KeywordArguments)
            },
        }
    }
}

} // verus!
