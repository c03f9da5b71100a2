//! The dispatch engine: executes a compiled [`Chunk`] over a fixed-capacity
//! operand stack, yielding a final value (or no value) or an error.

use vstd::prelude::*;
use vstd::string::StringExecFns;
use vstd::string::StringSliceAdditionalSpecFns;

use crate::chunk::{be_value, byte_to_opcode, code_decodes, lemma_be_value_small,
    unknown_opcode_msg, Chunk, OpCode};
use crate::float::{add_bits, div_bits, f64_add, f64_div, f64_gt, f64_lt, f64_mul, f64_sub,
    gt_bits, lt_bits, mul_bits, sub_bits};
use crate::stack::{Stack, STACK_MAX};
use crate::value::{spec_is_falsy, value_eq, Value, F64_SIGN_BIT};

verus! {

/// A byte span of the source, with the 0-based line it starts on.
#[derive(Clone, Copy, Debug, PartialEq, Eq, Structural)]
pub struct Span {
    pub start: usize,
    pub end: usize,
    pub line: usize,
}

/// A compilation failure: its message, the source text it arose in, and the
/// span of the offending token where one exists.
#[derive(Debug)]
pub struct CompileError {
    pub message: String,
    pub source: String,
    pub span: Option<Span>,
}

/// What can go wrong end to end: the compiler (or the VM's bytecode decoder)
/// rejects the input, or an instruction is applied to values of the wrong
/// variant while running.
#[derive(Debug)]
pub enum Error {
    Compile(CompileError),
    Runtime(String),
}

/// The spec-level error of a run: the kind and the message text.
pub enum SpecErr {
    Compile(Seq<char>),
    Runtime(Seq<char>),
}

/// Whether the error `e` carries what the spec-level error `s` requires; a
/// decoding error carries the chunk's `source` and no span.
pub open spec fn error_matches(e: Error, s: SpecErr, source: Seq<char>) -> bool {
    match (e, s) {
        (Error::Compile(ce), SpecErr::Compile(m)) => ce.message@ == m && ce.source@ == source
            && ce.span is None,
        (Error::Runtime(m1), SpecErr::Runtime(m)) => m1@ == m,
        _ => false,
    }
}

/// Whether the run result `r` is the spec-level result `s`.
pub open spec fn result_matches(
    r: Result<Option<Value>, Error>,
    s: Result<Option<Value>, SpecErr>,
    source: Seq<char>,
) -> bool {
    match (r, s) {
        (Ok(a), Ok(b)) => a == b,
        (Err(e), Err(se)) => error_matches(e, se, source),
        _ => false,
    }
}

/// The rendered form of a non-number value, as it appears in error messages.
pub open spec fn value_text(v: Value) -> Seq<char> {
    match v {
        Value::Bool(b) => if b {
            "true"@
        } else {
            "false"@
        },
        Value::Nil => "nil"@,
        Value::Number(_) => Seq::empty(),
    }
}

/// The operator symbol a binary opcode stands for.
pub open spec fn op_text(op: OpCode) -> Seq<char> {
    match op {
        OpCode::Add => "+"@,
        OpCode::Subtract => "-"@,
        OpCode::Multiply => "*"@,
        OpCode::Divide => "/"@,
        OpCode::Greater => ">"@,
        OpCode::Less => "<"@,
        _ => Seq::empty(),
    }
}

/// The message when a binary operator meets the non-number operand `v`.
pub open spec fn binop_msg(op: Seq<char>, v: Value) -> Seq<char> {
    "Binary operator `"@ + op + "` not applicable to value `"@ + value_text(v) + "`"@
}

/// The message when negation meets the non-number value `v`.
pub open spec fn negate_msg(v: Value) -> Seq<char> {
    "Unary operator `-` not applicable to value: "@ + value_text(v)
}

/// The message when a constant load runs past the instruction stream or
/// names a pool index that holds nothing.
pub open spec fn pool_msg() -> Seq<char> {
    "Error locating value in the pool"@
}

/// The message when an instruction needs an operand the stack does not hold.
pub open spec fn underflow_msg() -> Seq<char> {
    "Operand stack underflow"@
}

/// The message when a push meets a full stack.
pub open spec fn overflow_msg() -> Seq<char> {
    "Stack overflow"@
}

/// What one instruction does to the operand stack: carries on with a new
/// stack, or fails leaving the stack as it stood at the failure point.
pub enum StepOut {
    Next(Seq<Value>),
    Fail(SpecErr, Seq<Value>),
}

/// Pushing on the bounded operand stack: overflow is a runtime failure.
pub open spec fn push_step(stack: Seq<Value>, v: Value) -> StepOut {
    if stack.len() >= STACK_MAX {
        StepOut::Fail(SpecErr::Runtime(overflow_msg()), stack)
    } else {
        StepOut::Next(stack.push(v))
    }
}

/// Whether `op` is one of the six binary operator opcodes.
pub open spec fn is_binop(op: OpCode) -> bool {
    op == OpCode::Add || op == OpCode::Subtract || op == OpCode::Multiply || op == OpCode::Divide
        || op == OpCode::Greater || op == OpCode::Less
}

/// The value a binary operator leaves for number operands `a` and `b`.
pub open spec fn binop_value(op: OpCode, a: u64, b: u64) -> Value {
    match op {
        OpCode::Add => Value::Number(add_bits(a, b)),
        OpCode::Subtract => Value::Number(sub_bits(a, b)),
        OpCode::Multiply => Value::Number(mul_bits(a, b)),
        OpCode::Divide => Value::Number(div_bits(a, b)),
        OpCode::Greater => Value::Bool(gt_bits(a, b)),
        OpCode::Less => Value::Bool(lt_bits(a, b)),
        _ => Value::Nil,
    }
}

/// A binary operator's step: pop the right operand, which must be a number;
/// with no left operand the instruction consumes the right one and moves on;
/// a non-number left operand fails; otherwise the left operand is replaced in
/// place by the operator's result.
pub open spec fn binop_step(op: OpCode, stack: Seq<Value>) -> StepOut {
    if stack.len() == 0 {
        StepOut::Fail(SpecErr::Compile(underflow_msg()), stack)
    } else {
        let rhs = stack.last();
        let s1 = stack.drop_last();
        if !(rhs is Number) {
            StepOut::Fail(SpecErr::Runtime(binop_msg(op_text(op), rhs)), s1)
        } else if s1.len() == 0 {
            StepOut::Next(s1)
        } else {
            let lhs = s1.last();
            if !(lhs is Number) {
                StepOut::Fail(SpecErr::Runtime(binop_msg(op_text(op), lhs)), s1)
            } else {
                StepOut::Next(s1.update(s1.len() - 1, binop_value(op, lhs->Number_0, rhs->Number_0)))
            }
        }
    }
}

/// The outcome of a run: its result and the operand stack it leaves behind
/// (unwound only by what executed, never automatically).
pub struct RunOut {
    pub result: Result<Option<Value>, SpecErr>,
    pub stack: Seq<Value>,
}

/// Popping the stack for the run's final value: the top value, or no value.
pub open spec fn halt_out(stack: Seq<Value>) -> RunOut {
    if stack.len() == 0 {
        RunOut { result: Ok(None), stack }
    } else {
        RunOut { result: Ok(Some(stack.last())), stack: stack.drop_last() }
    }
}

/// The dispatch loop, from instruction offset `ip` with operand stack
/// `stack`: decode one opcode and act, until the stream is exhausted or a
/// `Return` pops the run's result, or an error stops the run.
///
/// An unknown opcode, a constant load without its operand bytes or naming an
/// absent pool entry, and an instruction that pops an empty stack are
/// compile-kind failures (only malformed bytecode reaches them); a
/// wrong-variant operand and stack overflow are runtime failures.
pub open spec fn run_from(code: Seq<u8>, consts: Seq<Value>, stack: Seq<Value>, ip: int) -> RunOut
    decreases code.len() - ip,
    when 0 <= ip
{
    if ip >= code.len() {
        halt_out(stack)
    } else {
        match byte_to_opcode(code[ip]) {
            None => RunOut {
                result: Err(SpecErr::Compile(unknown_opcode_msg(code[ip]))),
                stack,
            },
            Some(op) => match op {
                OpCode::Constant | OpCode::Constant16 | OpCode::Constant24 => {
                    let n: int = if op == OpCode::Constant {
                        1
                    } else if op == OpCode::Constant16 {
                        2
                    } else {
                        3
                    };
                    if ip + n >= code.len() {
                        RunOut { result: Err(SpecErr::Compile(pool_msg())), stack }
                    } else {
                        let handle: int = be_value(code, ip + 1, n);
                        if handle >= consts.len() {
                            RunOut { result: Err(SpecErr::Compile(pool_msg())), stack }
                        } else {
                            match push_step(stack, consts[handle]) {
                                StepOut::Next(s) => run_from(code, consts, s, ip + n + 1),
                                StepOut::Fail(e, s) => RunOut { result: Err(e), stack: s },
                            }
                        }
                    }
                },
                OpCode::Nil => match push_step(stack, Value::Nil) {
                    StepOut::Next(s) => run_from(code, consts, s, ip + 1),
                    StepOut::Fail(e, s) => RunOut { result: Err(e), stack: s },
                },
                OpCode::True => match push_step(stack, Value::Bool(true)) {
                    StepOut::Next(s) => run_from(code, consts, s, ip + 1),
                    StepOut::Fail(e, s) => RunOut { result: Err(e), stack: s },
                },
                OpCode::False => match push_step(stack, Value::Bool(false)) {
                    StepOut::Next(s) => run_from(code, consts, s, ip + 1),
                    StepOut::Fail(e, s) => RunOut { result: Err(e), stack: s },
                },
                OpCode::Add | OpCode::Subtract | OpCode::Multiply | OpCode::Divide
                    | OpCode::Greater | OpCode::Less => match binop_step(op, stack) {
                    StepOut::Next(s) => run_from(code, consts, s, ip + 1),
                    StepOut::Fail(e, s) => RunOut { result: Err(e), stack: s },
                },
                OpCode::Negate => {
                    if stack.len() == 0 {
                        run_from(code, consts, stack, ip + 1)
                    } else {
                        let top = stack.last();
                        if !(top is Number) {
                            RunOut { result: Err(SpecErr::Runtime(negate_msg(top))), stack }
                        } else {
                            // Negation flips the sign bit of the pattern.
                            let flipped = Value::Number(top->Number_0 ^ F64_SIGN_BIT);
                            run_from(code, consts, stack.update(stack.len() - 1, flipped), ip + 1)
                        }
                    }
                },
                OpCode::Not => {
                    if stack.len() == 0 {
                        run_from(code, consts, stack, ip + 1)
                    } else {
                        let b = Value::Bool(spec_is_falsy(stack.last()));
                        run_from(code, consts, stack.update(stack.len() - 1, b), ip + 1)
                    }
                },
                OpCode::Equal => {
                    if stack.len() == 0 {
                        RunOut { result: Err(SpecErr::Compile(underflow_msg())), stack }
                    } else {
                        let rhs = stack.last();
                        let s1 = stack.drop_last();
                        if s1.len() == 0 {
                            run_from(code, consts, s1, ip + 1)
                        } else {
                            let b = Value::Bool(value_eq(s1.last(), rhs));
                            run_from(code, consts, s1.update(s1.len() - 1, b), ip + 1)
                        }
                    }
                },
                OpCode::Return => halt_out(stack),
            },
        }
    }
}

/// The rendered form of a non-number value.
fn value_text_exec(v: &Value) -> (r: String)
    requires
        !(*v is Number),
    ensures
        r@ == value_text(*v),
{
    match v {
        Value::Bool(b) => if *b {
            "true".to_owned()
        } else {
            "false".to_owned()
        },
        Value::Nil => "nil".to_owned(),
        Value::Number(_) => {
            proof {
                assert(false);
            }
            "".to_owned()
        },
    }
}

/// The operator symbol of a binary opcode.
fn op_str(op: OpCode) -> (r: &'static str)
    requires
        is_binop(op),
    ensures
        r@ == op_text(op),
{
    match op {
        OpCode::Add => "+",
        OpCode::Subtract => "-",
        OpCode::Multiply => "*",
        OpCode::Divide => "/",
        OpCode::Greater => ">",
        _ => "<",
    }
}

/// The message naming a binary operator and its non-number operand.
fn binop_msg_exec(op: OpCode, v: &Value) -> (r: String)
    requires
        is_binop(op),
        !(*v is Number),
    ensures
        r@ == binop_msg(op_text(op), *v),
{
    let mut m = "Binary operator `".to_owned();
    m.append(op_str(op));
    m.append("` not applicable to value `");
    let txt = value_text_exec(v);
    m.append(txt.as_str());
    m.append("`");
    m
}

/// The message naming negation's non-number operand.
fn negate_msg_exec(v: &Value) -> (r: String)
    requires
        !(*v is Number),
    ensures
        r@ == negate_msg(*v),
{
    let mut m = "Unary operator `-` not applicable to value: ".to_owned();
    let txt = value_text_exec(v);
    m.append(txt.as_str());
    m
}

/// A decoding failure of the running chunk: carries the chunk's source text
/// and no token span.
fn vm_compile_error(message: String, chunk: &Chunk) -> (e: Error)
    ensures
        error_matches(e, SpecErr::Compile(message@), chunk@.source),
{
    Error::Compile(
        CompileError { message, source: chunk.source().clone(), span: None },
    )
}

/// The virtual machine: an instruction cursor over the chunk being executed,
/// and the operand stack, which persists across runs until cleared.
pub struct VM {
    stack: Stack<Value>,
    ip: usize,
}

impl VM {
    /// The operand stack's contents, bottom first.
    pub closed spec fn stack_view(&self) -> Seq<Value> {
        self.stack@
    }

    /// A fresh machine with an empty operand stack.
    pub fn new() -> (vm: VM)
        ensures
            vm.stack_view() == Seq::<Value>::empty(),
    {
        VM { stack: Stack::new(), ip: 0 }
    }

    /// How many values the operand stack holds.
    pub fn stack_size(&self) -> (n: usize)
        ensures
            n == self.stack_view().len(),
    {
        self.stack.size()
    }

    /// Pops the operand stack until it is empty, for callers that do not
    /// want values to persist into the next run.
    pub fn clear_stack(&mut self)
        ensures
            final(self).stack_view() == Seq::<Value>::empty(),
    {
        self.stack.empty();
    }

    /// Compiles `src` and, on success, runs the chunk over the current
    /// operand stack. The stack persists across calls and is not cleared
    /// here (a caller that wants a fresh stack uses [`VM::clear_stack`]); a
    /// compilation failure leaves it untouched. Every compile-kind error
    /// carries the source text it arose in.
    pub fn interpret(&mut self, src: &str) -> (r: Result<Option<Value>, Error>)
        ensures
            r is Err && r->Err_0 is Compile ==> r->Err_0->Compile_0.source@ == src@,
            ({
                let comp = crate::compiler::spec_compiled(src.spec_bytes());
                &&& comp.ok ==> ({
                    let out = run_from(comp.cv.code, comp.cv.consts, old(self).stack_view(), 0);
                    &&& result_matches(r, out.result, src@)
                    &&& final(self).stack_view() == out.stack
                })
                &&& !comp.ok ==> r is Err && r->Err_0 is Compile && final(self).stack_view()
                    == old(self).stack_view()
                &&& comp.ok && r is Err && r->Err_0 is Compile ==> r->Err_0->Compile_0.message@
                    == underflow_msg()
            }),
    {
        let chunk = match crate::compiler::compile(src) {
            Ok(c) => c,
            Err(e) => {
                return Err(Error::Compile(e));
            },
        };
        proof {
            // The compiled chunk decodes cleanly, so the run can fail
            // compile-kind only through operand underflow.
            lemma_decodable_code_runs(chunk@.code, chunk@.consts, self.stack_view(), 0);
        }
        self.run(&chunk)
    }

    /// One binary operator instruction; the cursor is not touched.
    fn step_binop(&mut self, op: OpCode, chunk: &Chunk) -> (r: Result<(), Error>)
        requires
            is_binop(op),
        ensures
            final(self).ip == old(self).ip,
            match binop_step(op, old(self).stack_view()) {
                StepOut::Next(s) => r is Ok && final(self).stack_view() == s,
                StepOut::Fail(e, s) => r is Err && error_matches(r->Err_0, e, chunk@.source)
                    && final(self).stack_view() == s,
            },
    {
        let rhs = match self.stack.pop() {
            Some(v) => v,
            None => {
                return Err(vm_compile_error("Operand stack underflow".to_owned(), chunk));
            },
        };
        let rhs_bits: u64 = match rhs {
            Value::Number(b) => b,
            _ => {
                return Err(Error::Runtime(binop_msg_exec(op, &rhs)));
            },
        };
        let lhs = match self.stack.top() {
            Some(v) => *v,
            None => {
                return Ok(());
            },
        };
        let lhs_bits: u64 = match lhs {
            Value::Number(b) => b,
            _ => {
                return Err(Error::Runtime(binop_msg_exec(op, &lhs)));
            },
        };
        let result = match op {
            OpCode::Add => Value::Number(f64_add(lhs_bits, rhs_bits)),
            OpCode::Subtract => Value::Number(f64_sub(lhs_bits, rhs_bits)),
            OpCode::Multiply => Value::Number(f64_mul(lhs_bits, rhs_bits)),
            OpCode::Divide => Value::Number(f64_div(lhs_bits, rhs_bits)),
            OpCode::Greater => Value::Bool(f64_gt(lhs_bits, rhs_bits)),
            _ => Value::Bool(f64_lt(lhs_bits, rhs_bits)),
        };
        self.stack.set_top(result);
        Ok(())
    }

    /// Runs `chunk` from offset 0 over the current operand stack: exactly the
    /// outcome of [`run_from`], both the result and the stack left behind.
    #[verifier::loop_isolation(false)]
    pub fn run(&mut self, chunk: &Chunk) -> (r: Result<Option<Value>, Error>)
        ensures
            ({
                let out = run_from(chunk@.code, chunk@.consts, old(self).stack_view(), 0);
                &&& result_matches(r, out.result, chunk@.source)
                &&& final(self).stack_view() == out.stack
            }),
    {
        self.ip = 0;
        let ghost code = chunk@.code;
        let ghost consts = chunk@.consts;
        let ghost out = run_from(code, consts, self.stack_view(), 0);
        loop
            invariant
                self.ip <= code.len(),
                code == chunk@.code,
                consts == chunk@.consts,
                out == run_from(code, consts, self.stack_view(), self.ip as int),
            decreases code.len() - self.ip,
        {
            if self.ip >= chunk.len() {
                let v = self.stack.pop();
                return Ok(v);
            }
            let byte = chunk.byte_at(self.ip);
            let op = match OpCode::try_from(byte) {
                Ok(op) => op,
                Err(e) => {
                    return Err(vm_compile_error(e.0, chunk));
                },
            };
            match op {
                OpCode::Constant | OpCode::Constant16 | OpCode::Constant24 => {
                    let n: usize = match op {
                        OpCode::Constant => 1,
                        OpCode::Constant16 => 2,
                        _ => 3,
                    };
                    if n >= chunk.len() - self.ip {
                        return Err(
                            vm_compile_error("Error locating value in the pool".to_owned(), chunk),
                        );
                    }
                    let mut handle: usize = 0;
                    let mut k: usize = 0;
                    let ghost ip0 = self.ip as int;
                    while k < n
                        invariant
                            k <= n,
                            n <= 3,
                            ip0 == self.ip as int,
                            ip0 + n < code.len(),
                            code == chunk@.code,
                            handle == be_value(code, ip0 + 1, k as int),
                        decreases n - k,
                    {
                        proof {
                            lemma_be_value_small(code, ip0 + 1, k as int);
                        }
                        handle = handle * 256 + chunk.byte_at(self.ip + 1 + k) as usize;
                        k += 1;
                    }
                    proof {
                        lemma_be_value_small(code, ip0 + 1, n as int);
                    }
                    if handle >= chunk.constants_len() {
                        return Err(
                            vm_compile_error("Error locating value in the pool".to_owned(), chunk),
                        );
                    }
                    let v = chunk.const_at(handle);
                    if !self.stack.push(v) {
                        return Err(Error::Runtime("Stack overflow".to_owned()));
                    }
                    self.ip = self.ip + n + 1;
                },
                OpCode::Nil => {
                    if !self.stack.push(Value::Nil) {
                        return Err(Error::Runtime("Stack overflow".to_owned()));
                    }
                    self.ip = self.ip + 1;
                },
                OpCode::True => {
                    if !self.stack.push(Value::Bool(true)) {
                        return Err(Error::Runtime("Stack overflow".to_owned()));
                    }
                    self.ip = self.ip + 1;
                },
                OpCode::False => {
                    if !self.stack.push(Value::Bool(false)) {
                        return Err(Error::Runtime("Stack overflow".to_owned()));
                    }
                    self.ip = self.ip + 1;
                },
                OpCode::Add | OpCode::Subtract | OpCode::Multiply | OpCode::Divide
                    | OpCode::Greater | OpCode::Less => {
                    self.step_binop(op, chunk)?;
                    self.ip = self.ip + 1;
                },
                OpCode::Negate => {
                    let top = match self.stack.top() {
                        Some(v) => *v,
                        None => {
                            self.ip = self.ip + 1;
                            continue ;
                        },
                    };
                    let bits: u64 = match top {
                        Value::Number(b) => b,
                        _ => {
                            return Err(Error::Runtime(negate_msg_exec(&top)));
                        },
                    };
                    self.stack.set_top(Value::Number(bits ^ F64_SIGN_BIT));
                    self.ip = self.ip + 1;
                },
                OpCode::Not => {
                    let top = match self.stack.top() {
                        Some(v) => *v,
                        None => {
                            self.ip = self.ip + 1;
                            continue ;
                        },
                    };
                    self.stack.set_top(Value::Bool(top.is_falsy()));
                    self.ip = self.ip + 1;
                },
                OpCode::Equal => {
                    let rhs = match self.stack.pop() {
                        Some(v) => v,
                        None => {
                            return Err(
                                vm_compile_error("Operand stack underflow".to_owned(), chunk),
                            );
                        },
                    };
                    let lhs = match self.stack.top() {
                        Some(v) => *v,
                        None => {
                            self.ip = self.ip + 1;
                            continue ;
                        },
                    };
                    let b = lhs == rhs;
                    self.stack.set_top(Value::Bool(b));
                    self.ip = self.ip + 1;
                },
                OpCode::Return => {
                    let v = self.stack.pop();
                    return Ok(v);
                },
            }
        }
    }
}

/// On an instruction stream that decodes cleanly against its pool — as the
/// stream of every chunk the compiler hands out does — a run never reports an
/// unknown opcode or a bad constant load: it ends in a value, in a runtime
/// failure, or in the empty-stack failure of a stream that consumes more
/// operands than were pushed (which no compiled expression does).
pub proof fn lemma_decodable_code_runs(
    code: Seq<u8>,
    consts: Seq<Value>,
    stack: Seq<Value>,
    ip: int,
)
    requires
        0 <= ip,
        code_decodes(code, consts.len() as int, ip),
    ensures
        match run_from(code, consts, stack, ip).result {
            Ok(_) => true,
            Err(e) => match e {
                SpecErr::Runtime(_) => true,
                SpecErr::Compile(m) => m == underflow_msg(),
            },
        },
    decreases code.len() - ip,
{
    if ip < code.len() {
        match byte_to_opcode(code[ip]) {
            None => {},
            Some(op) => match op {
                OpCode::Constant | OpCode::Constant16 | OpCode::Constant24 => {
                    let n: int = if op == OpCode::Constant {
                        1
                    } else if op == OpCode::Constant16 {
                        2
                    } else {
                        3
                    };
                    let handle = be_value(code, ip + 1, n);
                    match push_step(stack, consts[handle]) {
                        StepOut::Next(s) => {
                            lemma_decodable_code_runs(code, consts, s, ip + n + 1);
                        },
                        StepOut::Fail(e, s) => {},
                    }
                },
                OpCode::Nil => match push_step(stack, Value::Nil) {
                    StepOut::Next(s) => {
                        lemma_decodable_code_runs(code, consts, s, ip + 1);
                    },
                    StepOut::Fail(e, s) => {},
                },
                OpCode::True => match push_step(stack, Value::Bool(true)) {
                    StepOut::Next(s) => {
                        lemma_decodable_code_runs(code, consts, s, ip + 1);
                    },
                    StepOut::Fail(e, s) => {},
                },
                OpCode::False => match push_step(stack, Value::Bool(false)) {
                    StepOut::Next(s) => {
                        lemma_decodable_code_runs(code, consts, s, ip + 1);
                    },
                    StepOut::Fail(e, s) => {},
                },
                OpCode::Add | OpCode::Subtract | OpCode::Multiply | OpCode::Divide
                    | OpCode::Greater | OpCode::Less => match binop_step(op, stack) {
                    StepOut::Next(s) => {
                        lemma_decodable_code_runs(code, consts, s, ip + 1);
                    },
                    StepOut::Fail(e, s) => {},
                },
                OpCode::Negate => {
                    if stack.len() == 0 {
                        lemma_decodable_code_runs(code, consts, stack, ip + 1);
                    } else if stack.last() is Number {
                        let flipped = Value::Number(stack.last()->Number_0 ^ F64_SIGN_BIT);
                        lemma_decodable_code_runs(
                            code,
                            consts,
                            stack.update(stack.len() - 1, flipped),
                            ip + 1,
                        );
                    }
                },
                OpCode::Not => {
                    if stack.len() == 0 {
                        lemma_decodable_code_runs(code, consts, stack, ip + 1);
                    } else {
                        let b = Value::Bool(spec_is_falsy(stack.last()));
                        lemma_decodable_code_runs(
                            code,
                            consts,
                            stack.update(stack.len() - 1, b),
                            ip + 1,
                        );
                    }
                },
                OpCode::Equal => {
                    if stack.len() > 0 {
                        let rhs = stack.last();
                        let s1 = stack.drop_last();
                        if s1.len() == 0 {
                            lemma_decodable_code_runs(code, consts, s1, ip + 1);
                        } else {
                            let b = Value::Bool(value_eq(s1.last(), rhs));
                            lemma_decodable_code_runs(
                                code,
                                consts,
                                s1.update(s1.len() - 1, b),
                                ip + 1,
                            );
                        }
                    }
                },
                OpCode::Return => {},
            },
        }
    }
}

} // verus!
