//! Programs that iterate, run by a small interpreter of its own on top of the library.
//!
//! The interpreter walks the syntax tree and leaves to the library what the library is for: the
//! heap, its limits and its collector, the builtins `iter` and `next`, and every advance of an
//! iterator. It plays the host of the step machine, calling callables and comparing values.

use std::rc::Rc;
use std::time::{Duration, Instant};

use monty_iter::advance::{Advance, HeapRead};
use monty_iter::args::ArgValues;
use monty_iter::collect::Collected;
use monty_iter::data::{Dict, DictView, FunctionObject, HeapData};
use monty_iter::error::{ExcType, Exception, RunError};
use monty_iter::heap::{Heap, HeapEntry};
use monty_iter::intern::Interns;
use monty_iter::iter::{IterValue, MontyIter};
use monty_iter::next::{iterator_next, Next};
use monty_iter::range::Range;
use monty_iter::resource::{LimitedTracker, NoLimitTracker, ResourceLimits, ResourceTracker};
use monty_iter::tuple::Tuple;
use monty_iter::value::{BytesId, HeapId, StringId, Value};
use monty_iter::vm::VM;

// === Syntax ===

#[derive(Clone, Debug)]
enum Expr {
    Int(i64),
    Str(usize),
    Bool(bool),
    Name(String),
    List(Vec<Expr>),
    Dict(Vec<(Expr, Expr)>),
    Call(Box<Expr>, Vec<Expr>),
    Method(Box<Expr>, String, Vec<Expr>),
    Index(Box<Expr>, Box<Expr>),
    Binary(String, Box<Expr>, Box<Expr>),
    And(Box<Expr>, Box<Expr>),
    IfElse(Box<Expr>, Box<Expr>, Box<Expr>),
}

#[derive(Clone, Debug)]
enum Target {
    Name(String),
    Index(Expr, Expr),
}

#[derive(Clone, Debug)]
enum Stmt {
    Expr(Expr),
    Assign(Target, Expr),
    Augment(Target, String, Expr),
    Def(String, usize),
    Return(Expr),
    If(Expr, Vec<Stmt>),
    For(String, Expr, Vec<Stmt>),
    While(Expr, Vec<Stmt>),
    Try(Vec<Stmt>, String, Vec<Stmt>),
    Raise(String, Expr),
    Assert(Expr),
    Break,
}

#[derive(Clone, Debug, Default)]
struct Function {
    params: Vec<String>,
    body: Vec<Stmt>,
    locals: Vec<String>,
    /// Locals that functions inside share.
    cells: Vec<String>,
    /// Variables shared from functions outside.
    free: Vec<String>,
}

#[derive(Clone, Debug, Default)]
struct Program {
    functions: Vec<Function>,
    strings: Vec<String>,
    body: Vec<Stmt>,
}

#[derive(Clone, Debug, PartialEq)]
enum Token {
    Int(i64),
    Str(String),
    Name(String),
    Op(String),
}

struct Line {
    indent: usize,
    tokens: Vec<Token>,
}

fn tokenize(line: &str) -> Vec<Token> {
    let chars: Vec<char> = line.chars().collect();
    let mut tokens = Vec::new();
    let mut i: usize = 0;
    while i < chars.len() {
        let c = chars[i];
        let mut j: usize = i + 1;
        if c == ' ' {
        } else if c.is_ascii_digit() {
            while j < chars.len() && chars[j].is_ascii_digit() {
                j += 1;
            }
            let text: String = chars[i..j].iter().collect();
            tokens.push(Token::Int(text.parse().unwrap()));
        } else if c.is_alphabetic() || c == '_' {
            while j < chars.len() && (chars[j].is_alphanumeric() || chars[j] == '_') {
                j += 1;
            }
            tokens.push(Token::Name(chars[i..j].iter().collect()));
        } else if c == '\'' {
            while chars[j] != '\'' {
                j += 1;
            }
            tokens.push(Token::Str(chars[i + 1..j].iter().collect()));
            j += 1;
        } else {
            if j < chars.len() && chars[j] == '=' && "=<>+-".contains(c) {
                j += 1;
            }
            tokens.push(Token::Op(chars[i..j].iter().collect()));
        }
        i = j;
    }
    tokens
}

struct Parser {
    program: Program,
    lines: Vec<Line>,
    line: usize,
    at: usize,
}

impl Parser {
    fn parse(code: &str) -> Program {
        let lines = code
            .lines()
            .filter(|line| !line.trim().is_empty())
            .map(|line| Line {
                indent: line.len() - line.trim_start().len(),
                tokens: tokenize(line.trim()),
            })
            .collect();
        let mut parser = Parser { program: Program::default(), lines, line: 0, at: 0 };
        let body = parser.block(0);
        parser.program.body = body;
        for stmt in inner_functions(&parser.program.body) {
            parser.resolve(stmt, &[]);
        }
        parser.program
    }

    /// Settles which variables the function `index` shares with those outside.
    fn resolve(&mut self, index: usize, outside: &[String]) {
        let function = self.program.functions[index].clone();
        let mut locals = function.params.clone();
        assigned_names(&function.body, &mut locals);
        let mut visible: Vec<String> = outside.to_vec();
        visible.extend(locals.iter().cloned());
        let mut wanted = Vec::new();
        used_names(&function.body, &mut wanted);
        let mut cells = Vec::new();
        for inner in inner_functions(&function.body) {
            self.resolve(inner, &visible);
            for name in self.program.functions[inner].free.clone() {
                if locals.contains(&name) && !cells.contains(&name) {
                    cells.push(name.clone());
                }
                wanted.push(name);
            }
        }
        let mut free: Vec<String> = Vec::new();
        for name in wanted {
            if !locals.contains(&name) && outside.contains(&name) && !free.contains(&name) {
                free.push(name);
            }
        }
        let function = &mut self.program.functions[index];
        function.locals = locals;
        function.cells = cells;
        function.free = free;
    }

    fn block(&mut self, indent: usize) -> Vec<Stmt> {
        let mut body = Vec::new();
        while self.line < self.lines.len() && self.lines[self.line].indent == indent {
            self.at = 0;
            body.push(self.statement());
        }
        body
    }

    /// The block that belongs to the statement whose line has just been read.
    fn suite(&mut self) -> Vec<Stmt> {
        self.expect(":");
        self.line += 1;
        let indent = self.lines[self.line].indent;
        self.block(indent)
    }

    fn statement(&mut self) -> Stmt {
        let word = match self.peek() {
            Some(Token::Name(word)) => word.clone(),
            _ => String::new(),
        };
        match word.as_str() {
            "def" => {
                self.at += 1;
                let name = self.name();
                self.expect("(");
                let mut params = Vec::new();
                while !self.accept(")") {
                    params.push(self.name());
                    self.accept(",");
                }
                let body = self.suite();
                self.program.functions.push(Function { params, body, ..Function::default() });
                Stmt::Def(name, self.program.functions.len() - 1)
            }
            "if" => {
                self.at += 1;
                let condition = self.expression();
                Stmt::If(condition, self.suite())
            }
            "while" => {
                self.at += 1;
                let condition = self.expression();
                Stmt::While(condition, self.suite())
            }
            "for" => {
                self.at += 1;
                let name = self.name();
                assert_eq!(self.name(), "in");
                let iterable = self.expression();
                Stmt::For(name, iterable, self.suite())
            }
            "try" => {
                self.at += 1;
                let body = self.suite();
                self.at = 0;
                assert_eq!(self.name(), "except");
                let caught = self.name();
                Stmt::Try(body, caught, self.suite())
            }
            "return" => {
                self.at += 1;
                let value = self.expression();
                self.end(Stmt::Return(value))
            }
            "raise" => {
                self.at += 1;
                let name = self.name();
                self.expect("(");
                let message = self.expression();
                self.expect(")");
                self.end(Stmt::Raise(name, message))
            }
            "assert" => {
                self.at += 1;
                let condition = self.expression();
                if self.accept(",") {
                    self.expression();
                }
                self.end(Stmt::Assert(condition))
            }
            "break" => {
                self.at += 1;
                self.end(Stmt::Break)
            }
            _ => {
                let left = self.expression();
                if self.accept("=") {
                    let value = self.expression();
                    self.end(Stmt::Assign(target(left), value))
                } else if self.accept("+=") {
                    let value = self.expression();
                    self.end(Stmt::Augment(target(left), "+".to_owned(), value))
                } else {
                    self.end(Stmt::Expr(left))
                }
            }
        }
    }

    fn end(&mut self, stmt: Stmt) -> Stmt {
        assert_eq!(self.peek(), None, "unexpected text behind a statement");
        self.line += 1;
        stmt
    }

    fn expression(&mut self) -> Expr {
        let value = self.conjunction();
        if !self.accept("if") {
            return value;
        }
        let condition = self.conjunction();
        self.expect("else");
        let other = self.expression();
        Expr::IfElse(Box::new(condition), Box::new(value), Box::new(other))
    }

    fn conjunction(&mut self) -> Expr {
        let mut left = self.comparison();
        while self.accept("and") {
            left = Expr::And(Box::new(left), Box::new(self.comparison()));
        }
        left
    }

    fn comparison(&mut self) -> Expr {
        let left = self.sum();
        for op in ["==", "<=", "<", ">"] {
            if self.accept(op) {
                return Expr::Binary(op.to_owned(), Box::new(left), Box::new(self.sum()));
            }
        }
        left
    }

    fn sum(&mut self) -> Expr {
        let mut left = self.postfix();
        loop {
            let mut found = "";
            for op in ["+", "-", "|"] {
                if self.accept(op) {
                    found = op;
                }
            }
            if found.is_empty() {
                return left;
            }
            left = Expr::Binary(found.to_owned(), Box::new(left), Box::new(self.postfix()));
        }
    }

    fn postfix(&mut self) -> Expr {
        let mut value = self.atom();
        loop {
            if self.accept("(") {
                value = Expr::Call(Box::new(value), self.list_until(")"));
            } else if self.accept("[") {
                let index = self.expression();
                self.expect("]");
                value = Expr::Index(Box::new(value), Box::new(index));
            } else if self.accept(".") {
                let method = self.name();
                self.expect("(");
                value = Expr::Method(Box::new(value), method, self.list_until(")"));
            } else {
                return value;
            }
        }
    }

    fn atom(&mut self) -> Expr {
        let token = self.peek().cloned().expect("an expression");
        self.at += 1;
        match token {
            Token::Int(number) => Expr::Int(number),
            Token::Str(text) => {
                let known = self.program.strings.iter().position(|s| *s == text);
                let index = known.unwrap_or_else(|| {
                    self.program.strings.push(text);
                    self.program.strings.len() - 1
                });
                Expr::Str(index)
            }
            Token::Name(name) => match name.as_str() {
                "True" => Expr::Bool(true),
                "False" => Expr::Bool(false),
                _ => Expr::Name(name),
            },
            Token::Op(op) => match op.as_str() {
                "[" => Expr::List(self.list_until("]")),
                "{" => {
                    let mut entries = Vec::new();
                    while !self.accept("}") {
                        let key = self.expression();
                        self.expect(":");
                        entries.push((key, self.expression()));
                        self.accept(",");
                    }
                    Expr::Dict(entries)
                }
                "(" => {
                    let value = self.expression();
                    self.expect(")");
                    value
                }
                _ => panic!("unexpected {op}"),
            },
        }
    }

    fn list_until(&mut self, close: &str) -> Vec<Expr> {
        let mut items = Vec::new();
        while !self.accept(close) {
            items.push(self.expression());
            self.accept(",");
        }
        items
    }

    fn peek(&self) -> Option<&Token> {
        self.lines[self.line].tokens.get(self.at)
    }

    fn accept(&mut self, word: &str) -> bool {
        let found = match self.peek() {
            Some(Token::Op(op)) => op == word,
            Some(Token::Name(name)) => name == word,
            _ => false,
        };
        if found {
            self.at += 1;
        }
        found
    }

    fn expect(&mut self, word: &str) {
        assert!(self.accept(word), "expected {word}, found {:?}", self.peek());
    }

    fn name(&mut self) -> String {
        match self.peek().cloned() {
            Some(Token::Name(name)) => {
                self.at += 1;
                name
            }
            other => panic!("expected a name, found {other:?}"),
        }
    }
}

fn target(left: Expr) -> Target {
    match left {
        Expr::Name(name) => Target::Name(name),
        Expr::Index(base, index) => Target::Index(*base, *index),
        other => panic!("cannot assign to {other:?}"),
    }
}

fn inner_functions(body: &[Stmt]) -> Vec<usize> {
    let mut found = Vec::new();
    for stmt in body {
        if let Stmt::Def(_, index) = stmt {
            found.push(*index);
        }
    }
    found
}

fn add_name(name: &str, names: &mut Vec<String>) {
    if !names.iter().any(|known| known == name) {
        names.push(name.to_owned());
    }
}

fn assigned_names(body: &[Stmt], names: &mut Vec<String>) {
    for stmt in body {
        match stmt {
            Stmt::Assign(Target::Name(name), _) | Stmt::Augment(Target::Name(name), _, _) => add_name(name, names),
            Stmt::Def(name, _) => add_name(name, names),
            Stmt::For(name, _, inner) => {
                add_name(name, names);
                assigned_names(inner, names);
            }
            Stmt::If(_, inner) | Stmt::While(_, inner) => assigned_names(inner, names),
            Stmt::Try(inner, _, handler) => {
                assigned_names(inner, names);
                assigned_names(handler, names);
            }
            _ => {}
        }
    }
}

fn used_names(body: &[Stmt], names: &mut Vec<String>) {
    for stmt in body {
        match stmt {
            Stmt::Expr(value) | Stmt::Return(value) | Stmt::Assert(value) | Stmt::Raise(_, value) => {
                names_in(value, names)
            }
            Stmt::Assign(place, value) | Stmt::Augment(place, _, value) => {
                if let Target::Index(base, index) = place {
                    names_in(base, names);
                    names_in(index, names);
                }
                names_in(value, names);
            }
            Stmt::If(value, inner) | Stmt::While(value, inner) | Stmt::For(_, value, inner) => {
                names_in(value, names);
                used_names(inner, names);
            }
            Stmt::Try(inner, _, handler) => {
                used_names(inner, names);
                used_names(handler, names);
            }
            Stmt::Def(..) | Stmt::Break => {}
        }
    }
}

fn names_in(value: &Expr, names: &mut Vec<String>) {
    match value {
        Expr::Name(name) => add_name(name, names),
        Expr::List(items) => items.iter().for_each(|item| names_in(item, names)),
        Expr::Dict(entries) => entries.iter().for_each(|(key, item)| {
            names_in(key, names);
            names_in(item, names);
        }),
        Expr::Call(base, args) | Expr::Method(base, _, args) => {
            names_in(base, names);
            args.iter().for_each(|arg| names_in(arg, names));
        }
        Expr::Index(a, b) | Expr::Binary(_, a, b) | Expr::And(a, b) => {
            names_in(a, names);
            names_in(b, names);
        }
        Expr::IfElse(a, b, c) => {
            names_in(a, names);
            names_in(b, names);
            names_in(c, names);
        }
        Expr::Int(_) | Expr::Str(_) | Expr::Bool(_) => {}
    }
}

// === Results ===

#[derive(Clone, Debug, PartialEq)]
enum MontyObject {
    PyNone,
    Int(i64),
    Bool(bool),
    String(String),
    List(Vec<MontyObject>),
}

impl MontyObject {
    fn to_string(&self) -> String {
        match self {
            MontyObject::PyNone => "None".to_owned(),
            MontyObject::Int(number) => format!("{number}"),
            MontyObject::Bool(b) => (if *b { "True" } else { "False" }).to_owned(),
            MontyObject::String(text) => format!("'{text}'"),
            MontyObject::List(items) => {
                let texts: Vec<String> = items.iter().map(|item| item.to_string()).collect();
                format!("[{}]", texts.join(", "))
            }
        }
    }
}

/// Why a statement did not simply run to its end.
enum Halt {
    Error(RunError),
    Break,
    Return(Value),
}

impl From<RunError> for Halt {
    fn from(error: RunError) -> Halt {
        Halt::Error(error)
    }
}

fn raised(exc_type: ExcType, message: &str) -> Halt {
    Halt::Error(RunError::Raised(Exception { exc_type, message: Some(message.to_owned()) }))
}

// === The interpreter ===

const BUILTINS: [&str; 6] = ["len", "next", "iter", "range", "int", "list"];

#[derive(Default)]
struct Frame {
    function: usize,
    vars: Vec<(String, Value)>,
    cells: Vec<(String, HeapId)>,
}

struct Machine<T: ResourceTracker> {
    script_name: &'static str,
    program: Rc<Program>,
    vm: VM<T>,
    globals: Vec<(String, Value)>,
    frames: Vec<Frame>,
    /// Values in use by expressions that are being evaluated.
    stack: Vec<Value>,
    /// The next statement of the program.
    position: usize,
    collections: usize,
}

/// A run that waits for the function of the host that it has called.
struct Suspended<T: ResourceTracker> {
    machine: Machine<T>,
    function_name: String,
    args: Vec<MontyObject>,
}

enum Progress<T: ResourceTracker> {
    Complete(Machine<T>, MontyObject),
    Call(Suspended<T>),
}

impl<T: ResourceTracker> Machine<T> {
    fn new(code: &str, script_name: &'static str, tracker: T) -> Machine<T> {
        let program = Parser::parse(code);
        let interns = Interns { strings: program.strings.clone(), bytes: Vec::new() };
        Machine {
            script_name,
            program: Rc::new(program),
            vm: VM::new(tracker, interns),
            globals: Vec::new(),
            frames: Vec::new(),
            stack: Vec::new(),
            position: 0,
            collections: 0,
        }
    }

    /// Runs to the end or to the first call of the host's `ext_fn`.
    fn run(mut self) -> Result<Progress<T>, (Machine<T>, RunError)> {
        let program = Rc::clone(&self.program);
        let mut result = MontyObject::PyNone;
        while self.position < program.body.len() {
            let stmt = &program.body[self.position];
            self.vm.instruction_ip = self.position;
            self.collect_if_due();
            let outcome = match stmt {
                Stmt::Assign(Target::Name(_), Expr::Call(callee, args)) if is_host_function(callee) => {
                    let outcome = self.eval_all(args);
                    if outcome.is_ok() {
                        let mut seen = Vec::new();
                        for _ in args {
                            let value = self.pop();
                            seen.insert(0, self.object(&value));
                            self.release(value);
                        }
                        return Ok(Progress::Call(Suspended {
                            machine: self,
                            function_name: "ext_fn".to_owned(),
                            args: seen,
                        }));
                    }
                    outcome
                }
                Stmt::Expr(value) => {
                    let outcome = self.eval(value);
                    if outcome.is_ok() {
                        let value = self.pop();
                        result = self.object(&value);
                        self.release(value);
                    }
                    outcome
                }
                _ => self.exec(stmt),
            };
            match outcome {
                Ok(()) => {}
                Err(Halt::Error(error)) => {
                    self.unwind(0, 0);
                    return Err((self, error));
                }
                Err(_) => panic!("a loop or a function ended outside of one"),
            }
            self.position += 1;
        }
        Ok(Progress::Complete(self, result))
    }

    /// Gives back everything the run still holds, and says how many entries are left.
    fn finish(mut self) -> usize {
        self.unwind(0, 0);
        for (_, value) in std::mem::take(&mut self.globals) {
            self.release(value);
        }
        self.live_entries()
    }

    fn live_entries(&self) -> usize {
        self.vm.heap.entries.iter().filter(|entry| entry.is_some()).count()
    }

    fn collect_if_due(&mut self) {
        if self.vm.gc_due() {
            let mut roots = Vec::new();
            for (_, value) in &self.globals {
                value.py_dec_ref_ids(&mut roots);
            }
            for frame in &self.frames {
                for (_, value) in &frame.vars {
                    value.py_dec_ref_ids(&mut roots);
                }
                for (_, id) in &frame.cells {
                    roots.push(*id);
                }
            }
            for value in &self.stack {
                value.py_dec_ref_ids(&mut roots);
            }
            assert!(self.vm.collect_if_due(&roots));
            self.collections += 1;
        }
    }

    fn release(&mut self, value: Value) {
        value.drop_with_heap(&mut self.vm.heap);
    }

    fn pop(&mut self) -> Value {
        self.stack.pop().expect("a value")
    }

    /// Gives up the frames and values above the given marks.
    fn unwind(&mut self, frames: usize, values: usize) {
        while self.stack.len() > values {
            let value = self.pop();
            self.release(value);
        }
        while self.frames.len() > frames {
            let frame = self.frames.pop().expect("a frame");
            for (_, value) in frame.vars {
                self.release(value);
            }
            for (_, id) in frame.cells {
                self.release(Value::Ref(id));
            }
        }
    }

    /// Allocates `data`; where that is refused, what it owned is given back.
    fn allocate(&mut self, data: HeapData) -> Result<Value, Halt> {
        let mut owned = Vec::new();
        data.collect_child_ids(&mut owned);
        match self.vm.heap.allocate(data) {
            Ok(id) => Ok(Value::Ref(id)),
            Err(error) => {
                for id in owned {
                    self.vm.heap.dec_ref(id);
                }
                Err(Halt::Error(RunError::Resource(error)))
            }
        }
    }

    fn load(&mut self, name: &str) -> Result<Value, Halt> {
        if let Some(frame) = self.frames.last() {
            if let Some((_, value)) = frame.vars.iter().find(|(known, _)| known == name) {
                return Ok(value.clone_with_heap(&mut self.vm.heap));
            }
            if let Some((_, id)) = frame.cells.iter().find(|(known, _)| known == name) {
                let content = match self.vm.heap.get(*id) {
                    HeapData::Cell(content) => same(content),
                    _ => panic!("a cell"),
                };
                return Ok(content.clone_with_heap(&mut self.vm.heap));
            }
        }
        if let Some((_, value)) = self.globals.iter().find(|(known, _)| known == name) {
            return Ok(value.clone_with_heap(&mut self.vm.heap));
        }
        match BUILTINS.iter().position(|known| *known == name) {
            Some(number) => Ok(Value::Builtin(number as u32)),
            None => panic!("{}: name {name} is not defined", self.script_name),
        }
    }

    fn store(&mut self, name: &str, value: Value) {
        let program = Rc::clone(&self.program);
        let old = match self.frames.last_mut() {
            Some(frame) => {
                if let Some((_, id)) = frame.cells.iter().find(|(known, _)| known == name) {
                    match self.vm.heap.get_mut(*id) {
                        HeapData::Cell(content) => Some(std::mem::replace(content, value)),
                        _ => panic!("a cell"),
                    }
                } else {
                    assert!(program.functions[frame.function].locals.iter().any(|known| known == name));
                    put(&mut frame.vars, name, value)
                }
            }
            None => put(&mut self.globals, name, value),
        };
        if let Some(old) = old {
            self.release(old);
        }
    }

    fn exec_all(&mut self, body: &[Stmt]) -> Result<(), Halt> {
        let home = self.vm.instruction_ip;
        for (i, stmt) in body.iter().enumerate() {
            self.vm.instruction_ip = home * 100 + i;
            self.collect_if_due();
            let outcome = self.exec(stmt);
            if outcome.is_err() {
                return outcome;
            }
        }
        self.vm.instruction_ip = home;
        Ok(())
    }

    fn exec(&mut self, stmt: &Stmt) -> Result<(), Halt> {
        match stmt {
            Stmt::Expr(value) => {
                self.eval(value)?;
                let value = self.pop();
                self.release(value);
                Ok(())
            }
            Stmt::Assign(place, value) => {
                self.eval(value)?;
                self.assign(place)
            }
            Stmt::Augment(place, op, value) => {
                let current = match place {
                    Target::Name(name) => Expr::Name(name.clone()),
                    Target::Index(base, index) => Expr::Index(Box::new(base.clone()), Box::new(index.clone())),
                };
                self.eval(&Expr::Binary(op.clone(), Box::new(current), Box::new(value.clone())))?;
                self.assign(place)
            }
            Stmt::Def(name, index) => {
                let free = self.program.functions[*index].free.clone();
                let function = if free.is_empty() {
                    Value::DefFunction(*index as u32)
                } else {
                    let mut captured = Vec::new();
                    for wanted in &free {
                        let frame = self.frames.last().expect("a frame");
                        let (_, id) = frame.cells.iter().find(|(known, _)| known == wanted).expect("a cell");
                        captured.push(Value::Ref(*id).clone_with_heap(&mut self.vm.heap));
                    }
                    self.allocate(HeapData::Closure(FunctionObject { function: *index as u32, captured }))?
                };
                self.store(name, function);
                Ok(())
            }
            Stmt::Return(value) => {
                self.eval(value)?;
                let value = self.pop();
                Err(Halt::Return(value))
            }
            Stmt::If(condition, body) => {
                if self.test(condition)? {
                    self.exec_all(body)?;
                }
                Ok(())
            }
            Stmt::While(condition, body) => {
                while self.test(condition)? {
                    match self.exec_all(body) {
                        Err(Halt::Break) => break,
                        outcome => outcome?,
                    }
                }
                Ok(())
            }
            Stmt::For(name, iterable, body) => {
                self.eval(iterable)?;
                let iterable = self.pop();
                let iterator = MontyIter::init(&mut self.vm, ArgValues::One(iterable))?;
                self.stack.push(iterator);
                let id = self.stack.last().and_then(|value| value.ref_id()).expect("an iterator");
                while let Some(item) = self.advance(id)? {
                    self.store(name, item);
                    match self.exec_all(body) {
                        Err(Halt::Break) => break,
                        outcome => outcome?,
                    }
                }
                let iterator = self.pop();
                self.release(iterator);
                Ok(())
            }
            Stmt::Try(body, caught, handler) => {
                let (frames, values) = (self.frames.len(), self.stack.len());
                let state = self.vm.frame_state();
                match self.exec_all(body) {
                    Err(Halt::Error(error)) if format!("{:?}", error.exc_type()) == *caught => {
                        assert_eq!(
                            self.vm.frame_depth, state.frame_depth,
                            "the error must arrive in the frame of its handler"
                        );
                        self.unwind(frames, values);
                        self.vm.restore_frame_state(state);
                        self.exec_all(handler)
                    }
                    outcome => outcome,
                }
            }
            Stmt::Raise(name, message) => {
                self.eval(message)?;
                let message = self.pop();
                let text = match self.object(&message) {
                    MontyObject::String(text) => text,
                    other => other.to_string(),
                };
                self.release(message);
                Err(raised(exception_named(name), &text))
            }
            Stmt::Assert(condition) => {
                if self.test(condition)? {
                    Ok(())
                } else {
                    Err(raised(ExcType::AssertionError, "an assertion failed"))
                }
            }
            Stmt::Break => Err(Halt::Break),
        }
    }

    fn test(&mut self, condition: &Expr) -> Result<bool, Halt> {
        self.eval(condition)?;
        let value = self.pop();
        let truth = match &value {
            Value::PyNone => false,
            Value::Bool(b) => *b,
            Value::Int(number) => *number != 0,
            _ => true,
        };
        self.release(value);
        Ok(truth)
    }

    /// Stores the value on top of the stack.
    fn assign(&mut self, place: &Target) -> Result<(), Halt> {
        match place {
            Target::Name(name) => {
                let value = self.pop();
                self.store(name, value);
            }
            Target::Index(base, index) => {
                self.eval(base)?;
                self.eval(index)?;
                let index = self.pop();
                let base = self.pop();
                let value = self.pop();
                let id = base.ref_id().expect("a container");
                let at = match self.vm.heap.get(id) {
                    HeapData::Dict(dict) => dict.entries.iter().position(|entry| entry.0 == index),
                    _ => panic!("a dict"),
                };
                let old = match self.vm.heap.get_mut(id) {
                    HeapData::Dict(dict) => match at {
                        Some(at) => (std::mem::replace(&mut dict.entries[at].1, value), index),
                        None => {
                            dict.entries.push((index, value));
                            (Value::PyNone, Value::PyNone)
                        }
                    },
                    _ => panic!("a dict"),
                };
                self.vm.heap.mark_potential_cycle();
                self.release(old.0);
                self.release(old.1);
                self.release(base);
            }
        }
        Ok(())
    }

    fn eval_all(&mut self, values: &[Expr]) -> Result<(), Halt> {
        for value in values {
            self.eval(value)?;
        }
        Ok(())
    }

    /// Takes the `count` topmost values off the stack.
    fn take(&mut self, count: usize) -> Vec<Value> {
        let at = self.stack.len() - count;
        self.stack.split_off(at)
    }

    /// Evaluates `value` and leaves the result on the stack.
    fn eval(&mut self, value: &Expr) -> Result<(), Halt> {
        let result = match value {
            Expr::Int(number) => Value::Int(*number),
            Expr::Bool(b) => Value::Bool(*b),
            Expr::Str(index) => Value::InternString(StringId(*index)),
            Expr::Name(name) => self.load(name)?,
            Expr::List(items) => {
                self.eval_all(items)?;
                let items = self.take(items.len());
                self.allocate(HeapData::List(items))?
            }
            Expr::Dict(entries) => {
                for (key, item) in entries {
                    self.eval(key)?;
                    self.eval(item)?;
                }
                let mut values = self.take(2 * entries.len()).into_iter();
                let mut pairs = Vec::new();
                while let (Some(key), Some(item)) = (values.next(), values.next()) {
                    pairs.push((key, item));
                }
                self.allocate(HeapData::Dict(Dict { entries: pairs }))?
            }
            Expr::Call(callee, args) => {
                self.eval(callee)?;
                self.eval_all(args)?;
                let args = self.take(args.len());
                let result = match self.stack.last() {
                    Some(Value::Builtin(number)) => {
                        let number = *number as usize;
                        self.call_builtin(BUILTINS[number], args)
                    }
                    _ => {
                        let callee = same(self.stack.last().expect("a callable"));
                        self.call(&callee, args).map_err(Halt::Error)
                    }
                };
                let result = result?;
                let callee = self.pop();
                self.release(callee);
                result
            }
            Expr::Method(base, method, args) => {
                self.eval(base)?;
                self.eval_all(args)?;
                let args = self.take(args.len());
                let result = self.call_method(method, args)?;
                let base = self.pop();
                self.release(base);
                result
            }
            Expr::Index(base, index) => {
                self.eval(base)?;
                self.eval(index)?;
                let index = self.pop();
                let base = self.pop();
                let id = base.ref_id().expect("a container");
                let item = match (self.vm.heap.get(id), &index) {
                    (HeapData::List(items), Value::Int(at)) => items.get(*at as usize).map(same),
                    (HeapData::Dict(dict), key) => {
                        dict.entries.iter().find(|entry| entry.0 == *key).map(|entry| same(&entry.1))
                    }
                    _ => panic!("a container"),
                };
                let item = item.map(|item| item.clone_with_heap(&mut self.vm.heap));
                self.release(index);
                self.release(base);
                match item {
                    Some(item) => item,
                    None => return Err(raised(ExcType::KeyError, "no such item")),
                }
            }
            Expr::Binary(op, left, right) => {
                self.eval(left)?;
                self.eval(right)?;
                if op == "|" {
                    let right = self.pop();
                    let set = self.gather(right)?;
                    let view = self.pop();
                    self.release(view);
                    set
                } else {
                    let right = self.pop();
                    let left = self.pop();
                    let result = match (op.as_str(), &left, &right) {
                        ("==", _, _) => Value::Bool(py_eq(&self.vm.heap, &left, &right)),
                        ("+", Value::Int(a), Value::Int(b)) => Value::Int(a + b),
                        ("-", Value::Int(a), Value::Int(b)) => Value::Int(a - b),
                        ("<", Value::Int(a), Value::Int(b)) => Value::Bool(a < b),
                        (">", Value::Int(a), Value::Int(b)) => Value::Bool(a > b),
                        ("<=", Value::Int(a), Value::Int(b)) => Value::Bool(a <= b),
                        _ => panic!("no such operation: {op}"),
                    };
                    self.release(right);
                    self.release(left);
                    result
                }
            }
            Expr::And(left, right) => Value::Bool(self.test(left)? && self.test(right)?),
            Expr::IfElse(condition, value, other) => {
                let chosen = if self.test(condition)? { value } else { other };
                return self.eval(chosen);
            }
        };
        self.stack.push(result);
        Ok(())
    }

    fn call_builtin(&mut self, name: &str, args: Vec<Value>) -> Result<Value, Halt> {
        let mut args = args;
        match name {
            "len" => {
                let value = args.pop().expect("an argument");
                let count = match self.vm.heap.get(value.ref_id().expect("a container")) {
                    HeapData::List(items) => items.len(),
                    HeapData::Dict(dict) => dict.len(),
                    _ => panic!("a container"),
                };
                self.release(value);
                Ok(Value::Int(count as i64))
            }
            "next" => {
                let default = if args.len() == 2 { args.pop() } else { None };
                let iterator = args.pop().expect("an iterator");
                self.stack.push(iterator);
                let iterator = same(self.stack.last().expect("an iterator"));
                let result = self.next_value(&iterator, default);
                let iterator = self.pop();
                self.release(iterator);
                Ok(result?)
            }
            "iter" => Ok(MontyIter::init(&mut self.vm, ArgValues::Many(args))?),
            "range" => match args.pop() {
                Some(Value::Int(stop)) => self.allocate(HeapData::Range(Range { start: 0, stop, step: 1 })),
                _ => panic!("a number"),
            },
            "int" => Ok(Value::Int(0)),
            "list" => {
                let value = args.pop().expect("an iterable");
                let iter = MontyIter::new(value, &mut self.vm)?;
                match iter.collect(&mut self.vm)? {
                    Collected::Done(items) => self.allocate(HeapData::List(items)),
                    Collected::Call(_) => panic!("a container calls nothing"),
                }
            }
            _ => panic!("no such builtin: {name}"),
        }
    }

    /// Calls a method of the value on top of the stack.
    fn call_method(&mut self, method: &str, args: Vec<Value>) -> Result<Value, Halt> {
        let mut args = args;
        let id = self.stack.last().and_then(|value| value.ref_id()).expect("an object");
        match method {
            "append" => {
                let item = args.pop().expect("an item");
                match self.vm.heap.get_mut(id) {
                    HeapData::List(items) => items.push(item),
                    _ => panic!("a list"),
                }
                self.vm.heap.mark_potential_cycle();
                Ok(Value::PyNone)
            }
            "keys" => {
                let dict = Value::Ref(id).clone_with_heap(&mut self.vm.heap);
                let view = DictView { dict_id: dict.ref_id().expect("a dict") };
                self.allocate(HeapData::DictKeysView(view))
            }
            "isdisjoint" => {
                let other = args.pop().expect("an iterable");
                let set = self.gather(other)?;
                self.release(set);
                Ok(Value::Bool(true))
            }
            _ => panic!("no such method: {method}"),
        }
    }

    /// The set of all items of an iterator, which is drained in one go.
    fn gather(&mut self, iterator: Value) -> Result<Value, Halt> {
        let id = iterator.ref_id().expect("an iterator");
        self.stack.push(iterator);
        let height = self.stack.len();
        while let Some(item) = self.advance(id)? {
            if self.stack[height..].iter().any(|known| py_eq(&self.vm.heap, known, &item)) {
                self.release(item);
            } else {
                self.stack.push(item);
            }
        }
        let items = self.take(self.stack.len() - height);
        let set = self.allocate(HeapData::PySet(items))?;
        let iterator = self.pop();
        self.release(iterator);
        Ok(set)
    }

    /// Calls `callee`. After an error the frame state is where the error left it.
    fn call(&mut self, callee: &Value, args: Vec<Value>) -> Result<Value, RunError> {
        let (index, captured) = match callee {
            Value::DefFunction(index) => (*index as usize, Vec::new()),
            Value::Builtin(number) => {
                return self.call_builtin(BUILTINS[*number as usize], args).map_err(|halt| match halt {
                    Halt::Error(error) => error,
                    _ => panic!("a builtin returns or fails"),
                });
            }
            Value::Ref(id) => match self.vm.heap.get(*id) {
                HeapData::Closure(object) => {
                    let ids: Vec<HeapId> = object.captured.iter().filter_map(|value| value.ref_id()).collect();
                    (object.function as usize, ids)
                }
                _ => panic!("not callable"),
            },
            _ => panic!("not callable"),
        };
        let program = Rc::clone(&self.program);
        let function = &program.functions[index];
        assert_eq!(args.len(), function.params.len());
        let (frames, values) = (self.frames.len(), self.stack.len());
        let state = self.vm.frame_state();
        let mut frame = Frame { function: index, vars: Vec::new(), cells: Vec::new() };
        for (name, id) in function.free.iter().zip(captured) {
            Value::Ref(id).clone_with_heap(&mut self.vm.heap);
            frame.cells.push((name.clone(), id));
        }
        for (name, value) in function.params.iter().zip(args) {
            frame.vars.push((name.clone(), value));
        }
        self.frames.push(frame);
        self.vm.frame_depth += 1;
        self.vm.instruction_ip = 1000 * (index + 1);
        let mut outcome = Ok(());
        for name in &function.cells {
            if outcome.is_ok() {
                outcome = self.make_cell(name);
            }
        }
        if outcome.is_ok() {
            outcome = self.exec_all(&function.body);
        }
        self.unwind(frames, values);
        match outcome {
            Ok(()) => {
                self.vm.restore_frame_state(state);
                Ok(Value::PyNone)
            }
            Err(Halt::Return(value)) => {
                self.vm.restore_frame_state(state);
                Ok(value)
            }
            Err(Halt::Error(error)) => Err(error),
            Err(Halt::Break) => panic!("break outside of a loop"),
        }
    }

    /// Moves a variable of the running function to a cell.
    fn make_cell(&mut self, name: &str) -> Result<(), Halt> {
        let frame = self.frames.last_mut().expect("a frame");
        let content = match frame.vars.iter().position(|(known, _)| known == name) {
            Some(at) => frame.vars.remove(at).1,
            None => Value::PyNone,
        };
        let cell = self.allocate(HeapData::Cell(content))?;
        let id = cell.ref_id().expect("a cell");
        self.frames.last_mut().expect("a frame").cells.push((name.to_owned(), id));
        Ok(())
    }

    /// Advances the iterator `id`, as a loop does. An error arrives in the frame of the loop.
    fn advance(&mut self, id: HeapId) -> Result<Option<Value>, Halt> {
        let caller = self.vm.frame_state();
        let pauses = self.vm.gc_pause_depth;
        let iterator = HeapRead { id };
        let result = match iterator.advance(&mut self.vm) {
            Ok(Advance::Item(item)) => Ok(Some(item)),
            Ok(Advance::Exhausted) => Ok(None),
            Ok(Advance::Call(step)) => {
                let outcome = self.call(&step.callable, Vec::new());
                match step.called(&mut self.vm, outcome) {
                    Ok(produced) => {
                        let equal = py_eq(&self.vm.heap, &produced.produced, &produced.step.sentinel);
                        match produced.compared(&mut self.vm, Ok(equal)) {
                            Ok(stepped) => Ok(iterator.advance_stepped(&mut self.vm, stepped)),
                            Err(error) => Err(error),
                        }
                    }
                    Err(error) => Err(error),
                }
            }
            Err(error) => Err(error),
        };
        assert_eq!(self.vm.frame_state(), caller);
        assert_eq!(self.vm.gc_pause_depth, pauses);
        Ok(result?)
    }

    /// The builtin `next`. An error arrives in the frame of the caller.
    fn next_value(&mut self, iterator: &Value, default: Option<Value>) -> Result<Value, RunError> {
        let caller = self.vm.frame_state();
        let pauses = self.vm.gc_pause_depth;
        let result = match iterator_next(iterator, default, &mut self.vm) {
            Ok(Next::Value(value)) => Ok(value),
            Ok(Next::Call(pending)) => {
                let outcome = self.call(&pending.step.callable, Vec::new());
                match pending.called(&mut self.vm, outcome) {
                    Ok(produced) => {
                        let step = &produced.step;
                        let equal = py_eq(&self.vm.heap, &step.produced, &step.step.sentinel);
                        produced.compared(&mut self.vm, Ok(equal))
                    }
                    Err(error) => Err(error),
                }
            }
            Err(error) => Err(error),
        };
        assert_eq!(self.vm.frame_state(), caller);
        assert_eq!(self.vm.gc_pause_depth, pauses);
        result
    }

    fn object(&self, value: &Value) -> MontyObject {
        match value {
            Value::PyNone => MontyObject::PyNone,
            Value::Bool(b) => MontyObject::Bool(*b),
            Value::Int(number) => MontyObject::Int(*number),
            Value::InternString(id) => MontyObject::String(self.vm.interns.get_str(*id).to_owned()),
            Value::Ref(id) => match self.vm.heap.get(*id) {
                HeapData::List(items) => MontyObject::List(items.iter().map(|item| self.object(item)).collect()),
                HeapData::Str(text) => MontyObject::String(text.clone()),
                _ => panic!("not a result"),
            },
            _ => panic!("not a result"),
        }
    }

    fn value(&self, object: &MontyObject) -> Value {
        match object {
            MontyObject::Int(number) => Value::Int(*number),
            MontyObject::Bool(b) => Value::Bool(*b),
            MontyObject::PyNone => Value::PyNone,
            _ => panic!("the host answers with plain values"),
        }
    }
}

fn is_host_function(callee: &Expr) -> bool {
    matches!(callee, Expr::Name(name) if name == "ext_fn")
}

fn exception_named(name: &str) -> ExcType {
    match name {
        "StopIteration" => ExcType::StopIteration,
        "ValueError" => ExcType::ValueError,
        "RuntimeError" => ExcType::RuntimeError,
        _ => panic!("no such exception: {name}"),
    }
}

/// The same value, which owns no reference of its own.
fn same(value: &Value) -> Value {
    match value {
        Value::PyNone => Value::PyNone,
        Value::Bool(b) => Value::Bool(*b),
        Value::Int(number) => Value::Int(*number),
        Value::InternString(id) => Value::InternString(*id),
        Value::InternBytes(id) => Value::InternBytes(*id),
        Value::Builtin(number) => Value::Builtin(*number),
        Value::ModuleFunction(number) => Value::ModuleFunction(*number),
        Value::DefFunction(number) => Value::DefFunction(*number),
        Value::ExtFunction(number) => Value::ExtFunction(*number),
        Value::Ref(id) => Value::Ref(*id),
    }
}

fn put(vars: &mut Vec<(String, Value)>, name: &str, value: Value) -> Option<Value> {
    match vars.iter_mut().find(|(known, _)| known == name) {
        Some((_, old)) => Some(std::mem::replace(old, value)),
        None => {
            vars.push((name.to_owned(), value));
            None
        }
    }
}

/// `==`: by value, and item by item for lists.
fn py_eq<T: ResourceTracker>(heap: &Heap<T>, left: &Value, right: &Value) -> bool {
    match (left, right) {
        (Value::Ref(a), Value::Ref(b)) => match (heap.get(*a), heap.get(*b)) {
            (HeapData::List(xs), HeapData::List(ys)) => {
                xs.len() == ys.len() && xs.iter().zip(ys).all(|(x, y)| py_eq(heap, x, y))
            }
            _ => a == b,
        },
        _ => left == right,
    }
}

// === Snapshots ===

struct Writer {
    bytes: Vec<u8>,
}

impl Writer {
    fn number(&mut self, number: usize) {
        self.bytes.extend_from_slice(&(number as u64).to_le_bytes());
    }

    fn text(&mut self, text: &str) {
        self.number(text.len());
        self.bytes.extend_from_slice(text.as_bytes());
    }

    fn value(&mut self, value: &Value) {
        let (tag, payload): (usize, i64) = match value {
            Value::PyNone => (0, 0),
            Value::Bool(b) => (1, i64::from(*b)),
            Value::Int(number) => (2, *number),
            Value::InternString(id) => (3, id.0 as i64),
            Value::InternBytes(id) => (4, id.0 as i64),
            Value::Builtin(number) => (5, i64::from(*number)),
            Value::ModuleFunction(number) => (6, i64::from(*number)),
            Value::DefFunction(number) => (7, i64::from(*number)),
            Value::ExtFunction(number) => (8, i64::from(*number)),
            Value::Ref(id) => (9, id.0 as i64),
        };
        self.number(tag);
        self.bytes.extend_from_slice(&payload.to_le_bytes());
    }

    fn values(&mut self, values: &[Value]) {
        self.number(values.len());
        for value in values {
            self.value(value);
        }
    }

    fn data(&mut self, data: &HeapData) {
        match data {
            HeapData::List(items) => {
                self.number(0);
                self.values(items);
            }
            HeapData::Tuple(tuple) => {
                self.number(1);
                self.values(tuple.as_slice());
            }
            HeapData::Dict(dict) => {
                self.number(2);
                self.number(dict.len());
                for (key, item) in &dict.entries {
                    self.value(key);
                    self.value(item);
                }
            }
            HeapData::Range(range) => {
                self.number(3);
                self.value(&Value::Int(range.start));
                self.value(&Value::Int(range.stop));
                self.value(&Value::Int(range.step));
            }
            HeapData::Closure(object) => {
                self.number(4);
                self.number(object.function as usize);
                self.values(&object.captured);
            }
            HeapData::Cell(content) => {
                self.number(5);
                self.value(content);
            }
            HeapData::Iter(iter) => {
                self.number(6);
                self.number(iter.index);
                self.value(&iter.value);
                self.source(&iter.iter_value);
            }
            _ => panic!("no program here keeps such an entry"),
        }
    }

    fn source(&mut self, source: &IterValue) {
        match source {
            IterValue::Range { next, step, len } => {
                self.number(0);
                self.value(&Value::Int(*next));
                self.value(&Value::Int(*step));
                self.number(*len);
            }
            IterValue::IterStr { string, byte_offset, len } => {
                self.number(1);
                self.text(string);
                self.number(*byte_offset);
                self.number(*len);
            }
            IterValue::InternBytes { bytes_id, len } => {
                self.number(2);
                self.number(bytes_id.0);
                self.number(*len);
            }
            IterValue::HeapRef { heap_id, len, checks_mutation } => {
                self.number(3);
                self.number(heap_id.0);
                self.number(len.map_or(0, |len| len + 1));
                self.number(usize::from(*checks_mutation));
            }
            IterValue::CallableSentinel { pair, done } => {
                self.number(4);
                self.number(pair.0);
                self.number(usize::from(*done));
            }
        }
    }
}

struct Reader<'a> {
    bytes: &'a [u8],
}

impl Reader<'_> {
    fn raw(&mut self) -> [u8; 8] {
        let mut raw: [u8; 8] = [0; 8];
        raw.copy_from_slice(&self.bytes[..8]);
        self.bytes = &self.bytes[8..];
        raw
    }

    fn number(&mut self) -> usize {
        u64::from_le_bytes(self.raw()) as usize
    }

    fn text(&mut self) -> String {
        let len = self.number();
        let text = String::from_utf8(self.bytes[..len].to_vec()).expect("text");
        self.bytes = &self.bytes[len..];
        text
    }

    fn integer(&mut self) -> i64 {
        match self.value() {
            Value::Int(number) => number,
            other => panic!("expected a number, found {other:?}"),
        }
    }

    fn value(&mut self) -> Value {
        let tag = self.number();
        let payload = i64::from_le_bytes(self.raw());
        match tag {
            0 => Value::PyNone,
            1 => Value::Bool(payload != 0),
            2 => Value::Int(payload),
            3 => Value::InternString(StringId(payload as usize)),
            4 => Value::InternBytes(BytesId(payload as usize)),
            5 => Value::Builtin(payload as u32),
            6 => Value::ModuleFunction(payload as u32),
            7 => Value::DefFunction(payload as u32),
            8 => Value::ExtFunction(payload as u32),
            _ => Value::Ref(HeapId(payload as usize)),
        }
    }

    fn values(&mut self) -> Vec<Value> {
        let count = self.number();
        (0..count).map(|_| self.value()).collect()
    }

    fn data(&mut self) -> HeapData {
        match self.number() {
            0 => HeapData::List(self.values()),
            1 => HeapData::Tuple(Tuple::from_vec(self.values())),
            2 => {
                let count = self.number();
                let entries = (0..count).map(|_| (self.value(), self.value())).collect();
                HeapData::Dict(Dict { entries })
            }
            3 => HeapData::Range(Range { start: self.integer(), stop: self.integer(), step: self.integer() }),
            4 => HeapData::Closure(FunctionObject { function: self.number() as u32, captured: self.values() }),
            5 => HeapData::Cell(self.value()),
            _ => {
                let index = self.number();
                let value = self.value();
                HeapData::Iter(MontyIter { index, iter_value: self.source(), value })
            }
        }
    }

    fn source(&mut self) -> IterValue {
        match self.number() {
            0 => IterValue::Range { next: self.integer(), step: self.integer(), len: self.number() },
            1 => IterValue::IterStr { string: self.text(), byte_offset: self.number(), len: self.number() },
            2 => IterValue::InternBytes { bytes_id: BytesId(self.number()), len: self.number() },
            3 => {
                let heap_id = HeapId(self.number());
                let len = self.number().checked_sub(1);
                IterValue::HeapRef { heap_id, len, checks_mutation: self.number() != 0 }
            }
            _ => IterValue::CallableSentinel { pair: HeapId(self.number()), done: self.number() != 0 },
        }
    }
}

impl Suspended<NoLimitTracker> {
    /// The run as bytes. The program itself is not part of them.
    fn dump(&self) -> Vec<u8> {
        let machine = &self.machine;
        let mut writer = Writer { bytes: Vec::new() };
        writer.number(machine.position);
        writer.number(machine.vm.heap.allocations_since_gc);
        writer.number(usize::from(machine.vm.heap.potential_cycle));
        writer.number(machine.globals.len());
        for (name, value) in &machine.globals {
            writer.text(name);
            writer.value(value);
        }
        writer.number(machine.vm.heap.entries.len());
        for entry in &machine.vm.heap.entries {
            match entry {
                Some(entry) => {
                    writer.number(entry.refs);
                    writer.data(&entry.data);
                }
                None => writer.number(0),
            }
        }
        writer.text(&self.function_name);
        writer.bytes
    }

    fn load(code: &str, bytes: &[u8]) -> Suspended<NoLimitTracker> {
        let mut machine = Machine::new(code, "test.py", NoLimitTracker);
        let mut reader = Reader { bytes };
        machine.position = reader.number();
        let allocations_since_gc = reader.number();
        let potential_cycle = reader.number() != 0;
        let count = reader.number();
        machine.globals = (0..count).map(|_| (reader.text(), reader.value())).collect();
        let count = reader.number();
        let mut entries = Vec::new();
        for _ in 0..count {
            let refs = reader.number();
            entries.push(if refs == 0 { None } else { Some(HeapEntry { refs, data: reader.data() }) });
        }
        machine.vm.heap = Heap { entries, tracker: NoLimitTracker, allocations_since_gc, potential_cycle };
        for entry in machine.vm.heap.entries.iter().flatten() {
            if let HeapData::Iter(iter) = &entry.data {
                assert!(iter.fits(&machine.vm), "a restored iterator fits its heap");
            }
        }
        let function_name = reader.text();
        assert!(reader.bytes.is_empty(), "a snapshot is read to its end");
        Suspended { machine, function_name, args: Vec::new() }
    }

    /// Goes on with the answer of the host.
    fn resume(mut self, result: &MontyObject) -> MontyObject {
        let program = Rc::clone(&self.machine.program);
        match &program.body[self.machine.position] {
            Stmt::Assign(Target::Name(name), _) => {
                let value = self.machine.value(result);
                self.machine.store(name, value);
            }
            _ => panic!("not at a call of the host"),
        }
        self.machine.position += 1;
        match self.machine.run() {
            Ok(Progress::Complete(machine, object)) => {
                assert_eq!(machine.finish(), 0, "nothing may be left behind");
                object
            }
            Ok(Progress::Call(_)) => panic!("the snapshot must run to completion"),
            Err((_, error)) => panic!("the snapshot must resume: {error:?}"),
        }
    }
}

// === Running programs ===

/// Runs `code` to its end. Whatever comes of it, every reference must be accounted for: nothing is
/// left in the heap once the globals are gone.
fn run<T: ResourceTracker>(code: &str, tracker: T) -> Result<MontyObject, RunError> {
    match Machine::new(code, "test.py", tracker).run() {
        Ok(Progress::Complete(machine, object)) => {
            assert_eq!(machine.finish(), 0, "nothing may be left behind");
            Ok(object)
        }
        Ok(Progress::Call(_)) => panic!("the program calls the host"),
        Err((machine, error)) => {
            assert_eq!(machine.vm.gc_pause_depth, 0, "no step may be left open");
            assert_eq!(machine.finish(), 0, "nothing may be left behind");
            Err(error)
        }
    }
}

fn allocation_limit(max_allocations: usize) -> LimitedTracker {
    LimitedTracker::new(ResourceLimits::new().max_allocations(max_allocations))
}

fn millis(limit: Duration) -> u64 {
    limit.as_millis() as u64
}

/// Runs `code` under a duration limit and asserts it stops with `TimeoutError`, within `deadline`.
fn assert_stops_on_time_limit(code: &str, limit: Duration, deadline: Duration) {
    let started = Instant::now();
    let limits = ResourceLimits::new().max_millis(millis(limit));
    let error = run(code, LimitedTracker::new(limits))
        .expect_err("the program completed instead of hitting the time limit");
    assert_eq!(error.exc_type(), ExcType::TimeoutError);
    assert!(error.message().is_some_and(|m| m.contains("time limit exceeded")));
    assert!(started.elapsed() >= limit);
    assert!(started.elapsed() < deadline);
}

/// `int` returns 0 and never the sentinel, and calling it runs no statement: only the check inside
/// the step can stop this.
fn dict_view_union_is_stopped() {
    let code = r"
d = {}
result = d.keys() | iter(int, 1)
result
";
    assert_stops_on_time_limit(code, Duration::from_millis(100), Duration::from_secs(30));
}

fn dict_view_isdisjoint_is_stopped() {
    let code = r"
d = {}
result = d.keys().isdisjoint(iter(int, 1))
result
";
    assert_stops_on_time_limit(code, Duration::from_millis(100), Duration::from_secs(30));
}

fn for_loop_is_stopped() {
    let code = r"
total = 0
for value in iter(int, 1):
    total = total + 1
total
";
    assert_stops_on_time_limit(code, Duration::from_millis(100), Duration::from_secs(30));
}

#[test]
fn iter_callable_sentinel_dict_view_union_drive_honours_the_time_limit() {
    dict_view_union_is_stopped();
}

#[test]
fn iter_callable_sentinel_dict_view_isdisjoint_drive_honours_the_time_limit() {
    dict_view_isdisjoint_is_stopped();
}

#[test]
fn iter_callable_sentinel_for_loop_drive_honours_the_time_limit() {
    for_loop_is_stopped();
}

#[test]
fn iter_callable_sentinel_limits_dict_view_union_drive_honours_the_time_limit() {
    dict_view_union_is_stopped();
}

#[test]
fn iter_callable_sentinel_limits_dict_view_isdisjoint_drive_honours_the_time_limit() {
    dict_view_isdisjoint_is_stopped();
}

#[test]
fn iter_callable_sentinel_limits_for_loop_drive_honours_the_time_limit() {
    for_loop_is_stopped();
}

/// Everything the construction test does except `iter()`, so that the difference between the two
/// minimum allocation limits is what construction costs.
const BASELINE_PROGRAM: &str = r"
def make_stepper(seed):
    def stepper():
        return [seed]

    return stepper


stepper = make_stepper(1)
sentinel = []
probe = stepper
len(sentinel)
";

const CONSTRUCTING_PROGRAM: &str = r"
def make_stepper(seed):
    def stepper():
        return [seed]

    return stepper


stepper = make_stepper(1)
sentinel = []
probe = iter(stepper, sentinel)
len(sentinel)
";

/// The smallest allocation limit under which `code` runs to completion.
fn minimum_allocation_limit(code: &str) -> usize {
    let ceiling: usize = 64;
    for max_allocations in 1..=ceiling {
        match run(code, allocation_limit(max_allocations)) {
            Ok(_) => return max_allocations,
            Err(exc) => assert_eq!(
                exc.exc_type(),
                ExcType::MemoryError,
                "max_allocations={max_allocations}: expected the allocation limit, got: {exc:?}"
            ),
        }
    }
    panic!("no allocation limit up to {ceiling} let the program complete: {code}")
}

/// The limits that reject the pair and the iterator entry.
fn calibrated_construction_stages() -> (usize, usize) {
    let baseline = minimum_allocation_limit(BASELINE_PROGRAM);
    let constructing = minimum_allocation_limit(CONSTRUCTING_PROGRAM);
    assert_eq!(
        constructing,
        baseline + 2,
        "iter(callable, sentinel) must cost exactly two allocations - the pair list and the iterator \
         entry - but the baseline program needed {baseline} and the constructing program {constructing}"
    );
    (baseline, baseline + 1)
}

fn assert_allocation_limit_rejects(code: &str, max_allocations: usize) {
    let exc = run(code, allocation_limit(max_allocations))
        .expect_err("the allocation limit must reject this construction");
    assert_eq!(
        exc.exc_type(),
        ExcType::MemoryError,
        "max_allocations={max_allocations}: expected the allocation limit, got: {exc:?}"
    );
    assert!(
        exc.message().is_some_and(|m| m.contains("allocation limit exceeded")),
        "max_allocations={max_allocations}: expected an allocation limit message, got: {exc:?}"
    );
}

#[test]
fn callable_sentinel_construction_costs_exactly_two_allocations() {
    let (pair_stage, iterator_stage) = calibrated_construction_stages();
    assert_eq!(
        iterator_stage,
        pair_stage + 1,
        "the iterator entry must be the allocation immediately after the pair list"
    );
    assert_allocation_limit_rejects(CONSTRUCTING_PROGRAM, pair_stage);
    assert_allocation_limit_rejects(CONSTRUCTING_PROGRAM, iterator_stage);
    let output = run(CONSTRUCTING_PROGRAM, allocation_limit(iterator_stage + 1))
        .expect("one more allocation than the iterator entry needs must let construction succeed");
    assert_eq!(
        output.to_string(),
        "0",
        "the program ends in len(sentinel), an empty list"
    );
}

#[test]
fn callable_sentinel_pair_allocation_rejection_is_clean() {
    let (pair_stage, _) = calibrated_construction_stages();
    assert_allocation_limit_rejects(CONSTRUCTING_PROGRAM, pair_stage);
}

#[test]
fn callable_sentinel_iterator_allocation_rejection_is_clean() {
    let (_, iterator_stage) = calibrated_construction_stages();
    assert_allocation_limit_rejects(CONSTRUCTING_PROGRAM, iterator_stage);
}

fn construction_survives_every_allocation_limit() {
    let code = r"
def make_stepper(seed):
    def stepper():
        return [seed]

    return stepper


stepper = make_stepper(1)
sentinel = []
it = iter(stepper, sentinel)
result = next(it)
result
";

    let mut rejected: usize = 0;
    let mut accepted: usize = 0;
    for max_allocations in 1..=24_usize {
        match run(code, allocation_limit(max_allocations)) {
            Ok(_) => accepted += 1,
            Err(exc) => {
                assert_eq!(
                    exc.exc_type(),
                    ExcType::MemoryError,
                    "max_allocations={max_allocations}: expected the allocation limit, got: {exc:?}"
                );
                assert!(
                    exc.message().is_some_and(|m| m.contains("allocation limit exceeded")),
                    "max_allocations={max_allocations}: expected an allocation limit message, got: {exc:?}"
                );
                rejected += 1;
            }
        }
    }

    assert!(rejected > 0, "the sweep must reject at least one allocation limit");
    assert!(accepted > 0, "the sweep must accept at least one allocation limit");
}

#[test]
fn iter_callable_sentinel_callable_sentinel_construction_survives_every_allocation_limit() {
    construction_survives_every_allocation_limit();
}

#[test]
fn iter_callable_sentinel_limits_callable_sentinel_construction_survives_every_allocation_limit() {
    construction_survives_every_allocation_limit();
}

fn construction_recovers_after_a_rejection() {
    let code = r"
def make_stepper(seed):
    def stepper():
        return [seed]

    return stepper


stepper = make_stepper(2)
sentinel = []
values = []
for value in iter(stepper, sentinel):
    values.append(value)
    if len(values) == 3:
        break

len(values)
";
    let rejected = run(code, allocation_limit(3));
    assert!(rejected.is_err(), "three allocations cannot build this program");

    let started = Instant::now();
    let limits = ResourceLimits::new()
        .max_allocations(100_000)
        .max_millis(millis(Duration::from_secs(30)));
    let output = run(code, LimitedTracker::new(limits)).expect("a generous limit must let the same program run");
    assert_eq!(
        output.to_string(),
        "3",
        "the loop must yield three values before breaking"
    );
    assert!(
        started.elapsed() < Duration::from_secs(30),
        "the run must finish well inside its own duration limit"
    );
}

#[test]
fn iter_callable_sentinel_callable_sentinel_construction_recovers_after_a_rejection() {
    construction_recovers_after_a_rejection();
}

#[test]
fn iter_callable_sentinel_limits_callable_sentinel_construction_recovers_after_a_rejection() {
    construction_recovers_after_a_rejection();
}

// === The collector on either side of a step ===

#[test]
fn collection_resumes_after_a_paused_callable_sentinel_step() {
    let code = r"
state = {'outer': 0, 'inner': 0}


def churn():
    total = 0
    for _ in range(12000):
        pair = [[1], [2], [3], [4], [5], [6], [7], [8], [9], [10]]
        total += len(pair)
    return total


def inner_step():
    state['inner'] += 1
    if state['inner'] == 2 and state['outer'] == 0:
        assert churn() == 120000, 'the churn helper must allocate on every iteration'
    return ['i', state['inner']] if state['inner'] <= 2 else ['STOP']


def outer_step():
    inner = []
    state['inner'] = 0
    for item in iter(inner_step, ['STOP']):
        inner.append(item)
    state['outer'] += 1
    return inner if state['outer'] <= 2 else []


collected = []
for item in iter(outer_step, []):
    collected.append(item)

tail = 0
for _ in range(20):
    tail += len([[1], [2]])

[len(collected), state['outer'], state['inner'], tail]
";
    let (machine, output) = match Machine::new(code, "test.py", NoLimitTracker).run() {
        Ok(Progress::Complete(machine, output)) => (machine, output),
        _ => panic!("the nested drive must run to completion"),
    };

    assert_eq!(
        output,
        MontyObject::List(vec![
            MontyObject::Int(2),
            MontyObject::Int(3),
            MontyObject::Int(3),
            MontyObject::Int(40),
        ]),
        "the nested drive must yield two outer values, each drained from three inner calls"
    );
    let allocations_since_gc = machine.vm.heap.allocations_since_gc;
    assert!(
        allocations_since_gc < 1_000,
        "the collection the step deferred must have run once the suspension was released, clearing the \
         collector's counter; {} allocations are still outstanding, so collection never resumed",
        allocations_since_gc
    );
    let heap_count = machine.live_entries();
    assert!(
        heap_count < 200,
        "the resumed collection must have freed the churn; {} heap entries are still live",
        heap_count
    );
    assert_eq!(machine.collections, 1, "the collection falls due once");
    assert_eq!(machine.finish(), 0, "nothing may be left behind");
}

// === Snapshot round trips ===

struct RoundTrip {
    function_name: String,
    args: Vec<MontyObject>,
    live: MontyObject,
    reloaded: MontyObject,
}

/// Runs `code` until it calls the host, then goes on with `result`, both in the run itself and in
/// one that was read back from its bytes.
fn round_trip_at_external_call(code: &str, result: MontyObject) -> RoundTrip {
    let progress = match Machine::new(code, "test.py", NoLimitTracker).run() {
        Ok(Progress::Call(suspended)) => suspended,
        _ => panic!("the run must be paused at the external call"),
    };
    let bytes = progress.dump();
    let reloaded = Suspended::load(code, &bytes);
    assert_eq!(reloaded.dump(), bytes);

    RoundTrip {
        function_name: reloaded.function_name.clone(),
        args: progress.args.clone(),
        live: progress.resume(&result),
        reloaded: reloaded.resume(&result),
    }
}

#[test]
fn a_partly_consumed_callable_sentinel_iterator_survives_a_snapshot() {
    let round_trip = round_trip_at_external_call(
        r"
def make_stepper():
    box = {'n': 0}

    def stepper():
        box['n'] = box['n'] + 1
        return box['n'] if box['n'] < 4 else 0

    return stepper


it = iter(make_stepper(), 0)
first = next(it)
bridge = ext_fn(first)
rest = []
while True:
    try:
        rest.append(next(it))
    except StopIteration:
        break

[first, bridge, rest, next(it, 'DEFAULT')]
",
        MontyObject::Int(100),
    );

    assert_eq!(
        round_trip.function_name, "ext_fn",
        "the run must suspend at the external call"
    );
    assert_eq!(
        round_trip.args,
        vec![MontyObject::Int(1)],
        "exactly one value was drawn from the iterator before the snapshot"
    );

    let expected = MontyObject::List(vec![
        MontyObject::Int(1),
        MontyObject::Int(100),
        MontyObject::List(vec![MontyObject::Int(2), MontyObject::Int(3)]),
        MontyObject::String("DEFAULT".to_owned()),
    ]);
    assert_eq!(
        round_trip.reloaded, expected,
        "the restored iterator resumes its restored callable from where it left off, then stops on its sentinel"
    );
    assert_eq!(
        round_trip.live, expected,
        "the live snapshot reaches the same value, so the round trip changed nothing"
    );
}

#[test]
fn an_exhausted_callable_sentinel_iterator_stays_exhausted_across_a_snapshot() {
    let round_trip = round_trip_at_external_call(
        r"
state = {'calls': 0}


def stepper():
    state['calls'] = state['calls'] + 1
    return 0


it = iter(stepper, 0)
stopped = False
try:
    next(it)
except StopIteration:
    stopped = True

bridge = ext_fn(state['calls'])
[stopped, bridge, next(it, 'DEFAULT'), state['calls']]
",
        MontyObject::Int(7),
    );

    assert_eq!(
        round_trip.args,
        vec![MontyObject::Int(1)],
        "the terminal sentinel probe is the only call made before the snapshot"
    );

    let expected = MontyObject::List(vec![
        MontyObject::Bool(true),
        MontyObject::Int(7),
        MontyObject::String("DEFAULT".to_owned()),
        MontyObject::Int(1),
    ]);
    assert_eq!(
        round_trip.reloaded, expected,
        "the restored iterator is still exhausted: it hands back the default without calling back into the callable"
    );
    assert_eq!(
        round_trip.live, expected,
        "the live snapshot agrees, so the trailing call count is the `done` flag surviving rather than a coincidence"
    );
}

// === What programs see ===

fn result_of(code: &str) -> String {
    run(code, NoLimitTracker).expect("the program must run").to_string()
}

#[test]
fn exceptions_pass_through_and_leave_the_iterator_usable() {
    let code = r"
state = {'n': 0}


def stepper():
    state['n'] += 1
    if state['n'] == 2:
        raise ValueError('boom')
    return state['n']


it = iter(stepper, 4)
first = next(it)
caught = 0
try:
    next(it)
except ValueError:
    caught = 1

[first, caught, next(it), next(it, 'END'), next(it, 'END'), state['n']]
";
    assert_eq!(result_of(code), "[1, 1, 3, 'END', 'END', 4]");
}

#[test]
fn an_exception_that_nobody_catches_ends_the_run() {
    let code = r"
def stepper():
    raise ValueError('boom')


for value in iter(stepper, 0):
    value
";
    let error = run(code, NoLimitTracker).expect_err("the exception");
    assert_eq!(error.exc_type(), ExcType::ValueError);
    assert_eq!(error.message().as_deref(), Some("boom"));
}

#[test]
fn a_callable_that_raises_stop_iteration_does_not_exhaust() {
    let code = r"
state = {'n': 0}


def stepper():
    state['n'] += 1
    if state['n'] == 1:
        raise StopIteration('mine')
    return state['n']


it = iter(stepper, 9)
caught = 0
try:
    for value in it:
        caught = 5
except StopIteration:
    caught = 1

[caught, next(it)]
";
    assert_eq!(result_of(code), "[1, 2]");
}

#[test]
fn the_sentinel_is_compared_by_value() {
    let code = r"
state = {'n': 0}


def stepper():
    state['n'] += 1
    return [state['n']] if state['n'] < 3 else []


values = []
for value in iter(stepper, []):
    values.append(value)

values
";
    assert_eq!(result_of(code), "[[1], [2]]");
}

#[test]
fn a_callable_may_exhaust_the_iterator_that_calls_it() {
    let code = r"
state = {'depth': 0}
holder = []


def stepper():
    state['depth'] += 1
    if state['depth'] == 1:
        state['inner'] = next(holder[0], 'INNER')
        return [5]
    return 9


it = iter(stepper, 9)
holder.append(it)
result = next(it, 'OUTER')
[result, state['inner'], state['depth'], next(it, 'AGAIN'), state['depth']]
";
    assert_eq!(result_of(code), "['OUTER', 'INNER', 2, 'AGAIN', 2]");
}

#[test]
fn loops_share_an_iterator() {
    let code = r"
it = iter([1, 2, 3, 4])
first = []
for value in it:
    first.append(value)
    if value == 2:
        break

rest = []
for value in iter(it):
    rest.append(value)

[first, rest, list(range(3)), next(it, 'END')]
";
    assert_eq!(result_of(code), "[[1, 2], [3, 4], [0, 1, 2], 'END']");
}

#[test]
fn every_limit_on_a_nested_drive_is_clean() {
    let code = r"
state = {'n': 0}


def make(limit):
    def inner():
        state['n'] += 1
        return [state['n']] if state['n'] < limit else []

    return inner


def outer():
    found = []
    for value in iter(make(3), []):
        found.append(value)
    return found


values = []
for value in iter(outer, []):
    values.append(value)

[len(values), state['n']]
";
    assert_eq!(result_of(code), "[1, 4]");
    let needed = minimum_allocation_limit(code);
    assert!(needed > 10);
    for limit in 1..needed {
        assert_allocation_limit_rejects(code, limit);
    }
}
