# monty_iter

The iterators of a Python interpreter, verified with Verus: `iter(iterable)`,
`iter(callable, sentinel)`, `next`, and draining an iterator into a collection, on top of a
reference-counted heap with resource limits and a mark-and-sweep collector.

- `src/` is the library. Every executable function has a contract, stated over the mathematical
  model in `src/model.rs` and the meaning of one advance in `src/semantics.rs`; `src/laws.rs` proves
  what holds of the library as a whole.
- `tests/` runs it: `iterators.rs` call by call, `iter_callable_sentinel.rs` through small programs.
- `app/` is ordinary Rust around it: drivers that let a host run the callables an iterator asks for,
  and the forms in which iterators are written to snapshots.

A callable-driven iterator needs its callable called, and the result compared with the sentinel, in
the middle of an advance. The library never calls back. An advance that comes to that point returns a
step; the host calls the callable, hands the outcome to `called`, compares the produced value with
the sentinel, and hands the verdict to `compared`. From the beginning of a step to its end the
collector is suspended, and at its end the caller's frame state is put back, whatever came of it.

Two things are taken on trust: the functions of `smallvec` that `src/tuple.rs` names, and that the
clock in `src/resource.rs` can be read, of which nothing is claimed.
