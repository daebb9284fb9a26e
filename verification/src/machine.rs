//! The abstract machine: the model of one transition.
//!
//! Evaluation is a sequence of transitions over an environment and a stack of
//! frames.  A frame is either an expression that is being evaluated or a
//! construct that waits for the expression above it to finish.  A transition
//! never computes with floating-point numbers and never prints: where an
//! instruction needs either, the machine stops with a request and goes on when
//! the answer arrives.  An error unwinds the frame stack until a frame absorbs
//! it: loops absorb the break signal, function bodies the return signal.
use vstd::prelude::*;
use crate::buffers::BuffersView;
use crate::errors::ARGUMENT;
use crate::errors::BREAK;
use crate::errors::BUFFER_INDEX;
use crate::errors::INCOMPATIBLE;
use crate::errors::RETURN;
use crate::errors::SYNTAX;
use crate::errors::UNFILLED;
use crate::instructions::Instruction;
use crate::instructions::Request;
use crate::model::CodeView;
use crate::model::ControllerView;
use crate::model::CreateType;
use crate::model::DirectiveView;
use crate::model::FieldsView;
use crate::model::FunctionView;
use crate::model::Path;
use crate::model::ScopeView;
use crate::model::ValueView;
use crate::scalar::Buffer;
use crate::scalar::spec_from_count;
use crate::scalar::spec_to_count;
use crate::scalar::spec_to_index;
use crate::scalar::spec_truthy;
use crate::scope::ChainView;
use crate::scope::InsertMode;
use crate::scope::scope_insert;
use crate::scope::spec_insert_at;
use crate::scope::spec_resolve;

verus! {

/// The model of an environment: operand stacks, writer stacks and scope
/// chain.  The last writer stack is the current one; its front is the writer
/// that takes the next operand.
pub struct EnvView {
    pub buffers: BuffersView,
    pub writers: Seq<Seq<Instruction>>,
    pub scope: ChainView,
}

/// How an operation ended.
pub enum FlowView {
    /// It is done.
    Next,
    /// A filled instruction needs the caller to compute.
    Ask(Request),
    /// It failed with this error code.
    Throw(usize),
}

/// What the caller has to do after a transition.
pub enum ActionView {
    /// Nothing; make the next transition.
    Continue,
    /// Nothing is left to evaluate.
    Idle,
    /// Compute the request and hand the result to the next transition.
    Ask(Request),
    /// Evaluation failed with this error code and nothing absorbed it.
    Failed(usize),
}

/// What the caller hands to a transition.
#[derive(Clone, Copy, Debug)]
pub enum Event {
    /// Nothing.
    Resume,
    /// The result of the last request.
    Scalar(Buffer),
}

/// What becomes of the value that an evaluation in a partition returns.
#[allow(inconsistent_fields)]
pub enum ReturnView {
    /// It is the index into the array that `path` names.  With `discard`, the
    /// front of the operand stack is dropped before the element is written.
    Index { path: Path, discard: bool },
    /// It is the next index of a walk through nested arrays; `remaining` holds
    /// the index expressions still to come, the next one last.
    LongIndex { array: Seq<ValueView>, remaining: Seq<CodeView> },
    /// It is the element before `items[next]` of an array literal.
    Elements { items: Seq<CodeView>, next: nat, done: Seq<ValueView> },
    /// It is the field before `fields[next]` of a scope literal.
    Fields { fields: FieldsView, next: nat, done: ScopeView },
    /// It is bound to `path`, if it has the type `flavor`.
    BindValue { flavor: CreateType, path: Path },
    /// It is an argument of a call; `items[remaining]` was its expression.
    Arguments { function: FunctionView, items: Seq<CodeView>, remaining: nat, done: Seq<ValueView> },
}

/// The model of a frame.
#[allow(inconsistent_fields)]
pub enum FrameView {
    /// Directives still to run, the last one first.
    Eval(CodeView),
    /// A request is out.
    Pending(Request),
    /// The evaluation above runs in a partition with writers of its own.
    Return(ReturnView),
    /// The evaluation above yields the scalar or array to bind.
    Bind { mode: InsertMode, flavor: CreateType, path: Path },
    /// The evaluation above is the condition of an `if`.
    Branch { then: CodeView, otherwise: Option<CodeView> },
    /// The evaluation above yields the count of a `for`.
    ForStart { name: Option<Seq<char>>, body: CodeView },
    /// A `for` between iterations; a frame of the scope chain belongs to it.
    ForLoop { next: u32, end: u32, name: Option<Seq<char>>, body: CodeView },
    /// The evaluation above yields the array of a `forin`.
    ForInStart { name: Option<Seq<char>>, body: CodeView },
    /// A `forin` between iterations; a frame of the scope chain belongs to it.
    ForInLoop { items: Seq<ValueView>, next: nat, name: Option<Seq<char>>, body: CodeView },
    /// The evaluation above is the condition of a `while`.
    WhileTest { condition: CodeView, body: CodeView },
    /// The evaluation above is the body of a `while`.
    WhileBody { condition: CodeView, body: CodeView },
    /// A block between expressions, the next one last; a frame of the scope
    /// chain belongs to it.
    Block { remaining: Seq<CodeView> },
    /// The evaluation above is a function body; a partition, a writer stack
    /// and a frame of the scope chain belong to it.
    CallBody { returntype: CreateType },
}

/// The model of the machine.
pub struct MachineView {
    pub env: EnvView,
    pub frames: Seq<FrameView>,
}

impl EnvView {
    /// The environment a program starts in: one empty operand stack, one empty
    /// writer stack and an empty root scope.
    pub open spec fn initial() -> EnvView {
        EnvView {
            buffers: BuffersView { prev: Seq::empty(), new: Seq::empty() },
            writers: seq![Seq::<Instruction>::empty()],
            scope: ChainView { parents: Seq::empty(), scope: Seq::empty() },
        }
    }

    /// The writers of the current evaluation.
    pub open spec fn current_writers(self) -> Seq<Instruction> {
        if self.writers.len() > 0 {
            self.writers.last()
        } else {
            Seq::empty()
        }
    }

    /// The environment with other operand stacks.
    pub open spec fn with_buffers(self, buffers: BuffersView) -> EnvView {
        EnvView { buffers, writers: self.writers, scope: self.scope }
    }

    /// The environment with another scope chain.
    pub open spec fn with_scope(self, scope: ChainView) -> EnvView {
        EnvView { buffers: self.buffers, writers: self.writers, scope }
    }

    /// The environment with other writers in the current writer stack.
    pub open spec fn with_current_writers(self, writers: Seq<Instruction>) -> EnvView {
        EnvView {
            buffers: self.buffers,
            writers: self.writers.update(self.writers.len() - 1, writers),
            scope: self.scope,
        }
    }

    /// A fresh partition with a writer stack of its own.
    pub open spec fn enter(self) -> EnvView {
        EnvView {
            buffers: self.buffers.wrap(),
            writers: self.writers.push(Seq::empty()),
            scope: self.scope,
        }
    }

    /// The environment without its innermost partition and writer stack.
    pub open spec fn exit(self) -> EnvView {
        EnvView {
            buffers: self.buffers.trunc(),
            writers: if self.writers.len() > 0 {
                self.writers.drop_last()
            } else {
                self.writers
            },
            scope: self.scope,
        }
    }

    /// Pushes a writer; it takes the next operand.
    pub open spec fn push_writer(self, instruction: Instruction) -> EnvView {
        if self.writers.len() > 0 {
            self.with_current_writers(seq![instruction] + self.writers.last())
        } else {
            EnvView {
                buffers: self.buffers,
                writers: seq![seq![instruction]],
                scope: self.scope,
            }
        }
    }
}

/// The flow primitive.  With no writer pending the value lands on the operand
/// stack.  Otherwise it fills the next slot of the front writer; a writer that
/// is thereby full leaves the stack, and its result flows on in the same way:
/// computed here where bit patterns decide it, asked of the caller where they
/// do not.  A value that is not a scalar cannot fill a slot (error 7), and a
/// writer that was full already takes nothing (error 3).
pub open spec fn spec_write(env: EnvView, value: ValueView) -> (EnvView, FlowView)
    decreases env.current_writers().len(),
{
    let writers = env.current_writers();
    if writers.len() == 0 {
        (env.with_buffers(env.buffers.push(value)), FlowView::Next)
    } else {
        match value {
            ValueView::Scalar(b) => {
                let top = writers[0];
                if top.spec_is_full() {
                    (env, FlowView::Throw(SYNTAX))
                } else {
                    let fed = top.spec_fed(b);
                    if fed.spec_is_full() {
                        let rest = env.with_current_writers(writers.subrange(1, writers.len() as int));
                        match fed.spec_request().spec_decide() {
                            Some(r) => spec_write(rest, ValueView::Scalar(r)),
                            None => (rest, FlowView::Ask(fed.spec_request())),
                        }
                    } else {
                        (env.with_current_writers(writers.update(0, fed)), FlowView::Next)
                    }
                }
            },
            _ => (env, FlowView::Throw(INCOMPATIBLE)),
        }
    }
}

/// The number of values a construct leaves for the expression around it.
pub open spec fn spec_return_count(c: ControllerView) -> int {
    match c {
        ControllerView::Call(_, _) => 1,
        _ => 0,
    }
}

/// Whether a directive takes part in capacity bookkeeping as a producer.
pub open spec fn is_producer(d: DirectiveView) -> bool {
    match d {
        DirectiveView::ReadTop => true,
        DirectiveView::ReadAt(_) => true,
        DirectiveView::ReadIndexed(_, _) => true,
        DirectiveView::ReadLongIndexed(_, _) => true,
        DirectiveView::ReadNamed(_) => true,
        DirectiveView::WriteLiteral(_) => true,
        DirectiveView::WriteArray(_) => true,
        DirectiveView::WriteScope(_) => true,
        DirectiveView::Control(_) => true,
        _ => false,
    }
}

/// The number of values a producer yields.
pub open spec fn produces(d: DirectiveView) -> int {
    match d {
        DirectiveView::Control(c) => spec_return_count(c),
        _ => 1,
    }
}

/// The capacity that a directive opens: the arity of an instruction, one for
/// the right-hand side of a binder.
pub open spec fn opens(d: DirectiveView) -> Option<int> {
    match d {
        DirectiveView::WriteInstruction(i) => Some(i.spec_capacity()),
        DirectiveView::Bind(_, _, _) => Some(1),
        _ => None,
    }
}

/// Takes `count` off the innermost capacity; a capacity that is used up is
/// dropped and the same count comes off the one around it.  The flag says that
/// no capacity was left to take from: the expression is complete.
pub open spec fn settle(stack: Seq<int>, count: int) -> (Seq<int>, bool)
    decreases stack.len(),
{
    if stack.len() == 0 {
        (stack, true)
    } else {
        let left = stack.last() - count;
        if left <= 0 {
            settle(stack.drop_last(), count)
        } else {
            (stack.drop_last().push(left), false)
        }
    }
}

/// The capacity stack after a directive has joined the expression, and
/// whether the expression ends with it.
pub open spec fn capacity_after(stack: Seq<int>, d: DirectiveView) -> (Seq<int>, bool) {
    if is_producer(d) {
        let (settled, complete) = settle(stack, produces(d));
        (settled, complete || settled.len() == 0)
    } else {
        match opens(d) {
            Some(c) => (stack.push(c), false),
            None => (stack, stack.len() == 0),
        }
    }
}

/// The number of directives, counted from the end of `s`, that make up the
/// next expression under the capacity rule.
pub open spec fn expression_len(s: CodeView, stack: Seq<int>) -> nat
    decreases s.len(),
{
    if s.len() == 0 {
        0
    } else {
        let (next, stop) = capacity_after(stack, s.last());
        if stop {
            1
        } else {
            1 + expression_len(s.drop_last(), next)
        }
    }
}

impl MachineView {
    /// The machine with another environment.
    pub open spec fn with_env(self, env: EnvView) -> MachineView {
        MachineView { env, frames: self.frames }
    }

    /// The machine with one more frame on top.
    pub open spec fn push(self, frame: FrameView) -> MachineView {
        MachineView { env: self.env, frames: self.frames.push(frame) }
    }

    /// The machine without its top frame.
    pub open spec fn pop(self) -> MachineView {
        if self.frames.len() > 0 {
            MachineView { env: self.env, frames: self.frames.drop_last() }
        } else {
            self
        }
    }

    /// Starts the evaluation of `expression` on top of `frame`.
    pub open spec fn begin(self, frame: FrameView, expression: CodeView) -> MachineView {
        self.push(frame).push(FrameView::Eval(expression))
    }

    /// Starts the evaluation of `expression` in a fresh partition; `then` says
    /// what becomes of the value it returns.
    pub open spec fn enter(self, then: ReturnView, expression: CodeView) -> MachineView {
        self.with_env(self.env.enter()).begin(FrameView::Return(then), expression)
    }
}

/// The environment after what belongs to a frame has been given up.
pub open spec fn released(env: EnvView, frame: FrameView) -> EnvView {
    match frame {
        FrameView::Return(_) => env.exit(),
        FrameView::ForLoop { .. } => env.with_scope(env.scope.leave()),
        FrameView::ForInLoop { .. } => env.with_scope(env.scope.leave()),
        FrameView::Block { .. } => env.with_scope(env.scope.leave()),
        FrameView::CallBody { .. } => env.exit().with_scope(env.scope.leave()),
        _ => env,
    }
}

/// Whether a frame stops an error: a loop stops the break signal, a function
/// body the return signal.
pub open spec fn absorbs(frame: FrameView, code: usize) -> bool {
    match frame {
        FrameView::ForLoop { .. } => code == BREAK,
        FrameView::ForInLoop { .. } => code == BREAK,
        FrameView::WhileTest { .. } => code == BREAK,
        FrameView::WhileBody { .. } => code == BREAK,
        FrameView::CallBody { .. } => code == RETURN,
        _ => false,
    }
}

/// Raises an error: frames are dropped, each giving up what belongs to it,
/// until one absorbs the error.  A loop that absorbs ends; a function body
/// that absorbs returns.  With no frame left the evaluation has failed.
pub open spec fn spec_raise(m: MachineView, code: usize) -> (MachineView, ActionView)
    decreases m.frames.len(), 0nat,
{
    if m.frames.len() == 0 {
        (m, ActionView::Failed(code))
    } else {
        let frame = m.frames.last();
        match frame {
            FrameView::CallBody { returntype } if code == RETURN => spec_finish_call(m.pop(), returntype),
            _ => {
                let rest = m.pop().with_env(released(m.env, frame));
                if absorbs(frame, code) {
                    (rest, ActionView::Continue)
                } else {
                    spec_raise(rest, code)
                }
            },
        }
    }
}

/// Acts on the outcome of an operation on the environment.
pub open spec fn spec_deliver(m: MachineView, outcome: (EnvView, FlowView)) -> (MachineView, ActionView)
    decreases m.frames.len(), 1nat,
{
    let next = m.with_env(outcome.0);
    match outcome.1 {
        FlowView::Next => (next, ActionView::Continue),
        FlowView::Ask(request) => (next.push(FrameView::Pending(request)), ActionView::Ask(request)),
        FlowView::Throw(code) => spec_raise(next, code),
    }
}

/// The end of a call.  The front of the body's partition is the result, the
/// null value if the partition is empty.  Partition, writers and scope frame
/// of the call are given up.  A result of the declared type is written to the
/// caller's environment, except the null value, of which nothing is written;
/// any other result is error 3.
pub open spec fn spec_finish_call(m: MachineView, returntype: CreateType) -> (MachineView, ActionView)
    decreases m.frames.len(), 2nat,
{
    let result = match m.env.buffers.get_return() {
        Some(v) => v,
        None => ValueView::Null,
    };
    let env = released(m.env, FrameView::CallBody { returntype });
    let caller = m.with_env(env);
    if returntype == result.tag() {
        if result is Null {
            (caller, ActionView::Continue)
        } else {
            spec_deliver(caller, spec_write(env, result))
        }
    } else {
        spec_raise(caller, SYNTAX)
    }
}

/// The element of `array` at the position that the scalar truncates to.
pub open spec fn element_at(array: Seq<ValueView>, index: Buffer) -> Option<ValueView> {
    if spec_to_index(index) < array.len() {
        Some(array[spec_to_index(index) as int])
    } else {
        None
    }
}

/// The first parameter whose argument has another type, if there is one.
pub open spec fn mistyped(params: Seq<(CreateType, Seq<char>)>, args: Seq<ValueView>) -> bool {
    exists|i: int| 0 <= i < params.len() && i < args.len() && (#[trigger] params[i]).0 != args[i].tag()
}

/// The frame of a call: each parameter bound to its argument, in order.
pub open spec fn seeded(scope: ScopeView, params: Seq<(CreateType, Seq<char>)>, args: Seq<ValueView>, count: nat) -> ScopeView
    decreases count,
{
    if count == 0 || count > params.len() || count > args.len() {
        scope
    } else {
        scope_insert(
            seeded(scope, params, args, (count - 1) as nat),
            params[count - 1].1,
            args[count - 1],
        )
    }
}

/// Calls a function: the arguments must match the parameters in number and
/// type (error 10); the body runs in a fresh scope frame that binds the
/// parameters, in a partition with writers of its own.
pub open spec fn spec_call(m: MachineView, function: FunctionView, args: Seq<ValueView>) -> (
    MachineView,
    ActionView,
) {
    if args.len() != function.params.len() || mistyped(function.params, args) {
        spec_raise(m, ARGUMENT)
    } else {
        let scope = m.env.scope.child();
        let bound = ChainView {
            parents: scope.parents,
            scope: seeded(scope.scope, function.params, args, args.len()),
        };
        let env = m.env.with_scope(bound).enter();
        (
            m.with_env(env).begin(FrameView::CallBody { returntype: function.returntype }, function.body),
            ActionView::Continue,
        )
    }
}

/// Evaluates the next argument of a call, or makes the call when none is
/// left.  Arguments are stored last first and evaluated in source order.
pub open spec fn spec_next_argument(
    m: MachineView,
    function: FunctionView,
    items: Seq<CodeView>,
    remaining: nat,
    done: Seq<ValueView>,
) -> (MachineView, ActionView) {
    if 0 < remaining <= items.len() {
        (
            m.enter(
                ReturnView::Arguments { function, items, remaining: (remaining - 1) as nat, done },
                items[remaining - 1],
            ),
            ActionView::Continue,
        )
    } else {
        spec_call(m, function, done)
    }
}

/// Evaluates the next element of an array literal, or writes the array when
/// none is left.
pub open spec fn spec_next_element(m: MachineView, items: Seq<CodeView>, next: nat, done: Seq<ValueView>) -> (
    MachineView,
    ActionView,
) {
    if next < items.len() {
        (
            m.enter(ReturnView::Elements { items, next: next + 1, done }, items[next as int]),
            ActionView::Continue,
        )
    } else {
        spec_deliver(m, spec_write(m.env, ValueView::Array(done)))
    }
}

/// Evaluates the next field of a scope literal, or writes the scope when none
/// is left.
pub open spec fn spec_next_field(m: MachineView, fields: FieldsView, next: nat, done: ScopeView) -> (
    MachineView,
    ActionView,
) {
    if next < fields.len() {
        (
            m.enter(ReturnView::Fields { fields, next: next + 1, done }, fields[next as int].2),
            ActionView::Continue,
        )
    } else {
        spec_deliver(m, spec_write(m.env, ValueView::Scope(done)))
    }
}

/// Evaluates the next index of a walk through nested arrays; with no index
/// expression at all the walk yields nothing (error 3).
pub open spec fn spec_next_index(m: MachineView, array: Seq<ValueView>, remaining: Seq<CodeView>) -> (
    MachineView,
    ActionView,
) {
    if remaining.len() > 0 {
        (
            m.enter(
                ReturnView::LongIndex { array, remaining: remaining.drop_last() },
                remaining.last(),
            ),
            ActionView::Continue,
        )
    } else {
        spec_raise(m, SYNTAX)
    }
}

/// Binds the value of the right-hand side that `rhs` holds.  A scalar or an
/// array is evaluated in place and read from the front of the operand stack;
/// a function or a scope is evaluated in a partition.
pub open spec fn spec_bind(m: MachineView, mode: InsertMode, flavor: CreateType, path: Path, rhs: CodeView) -> (
    MachineView,
    ActionView,
) {
    if flavor is BUF || flavor is ARR {
        (m.begin(FrameView::Bind { mode, flavor, path }, rhs), ActionView::Continue)
    } else {
        (m.enter(ReturnView::BindValue { flavor, path }, rhs), ActionView::Continue)
    }
}

/// Assigns `value` to `path`.
pub open spec fn spec_assign(m: MachineView, mode: InsertMode, path: Path, value: ValueView) -> (
    MachineView,
    ActionView,
) {
    match spec_insert_at(m.env.scope, path, value, mode) {
        Ok(chain) => (m.with_env(m.env.with_scope(chain)), ActionView::Continue),
        Err(code) => spec_raise(m, code),
    }
}

/// Starts a control construct.
pub open spec fn spec_start(m: MachineView, c: ControllerView) -> (MachineView, ActionView) {
    match c {
        ControllerView::If(condition, then) => (
            m.begin(FrameView::Branch { then, otherwise: None }, condition),
            ActionView::Continue,
        ),
        ControllerView::IfElse(condition, then, otherwise) => (
            m.begin(FrameView::Branch { then, otherwise: Some(otherwise) }, condition),
            ActionView::Continue,
        ),
        ControllerView::For(times, name, body) => (
            m.begin(FrameView::ForStart { name, body }, times),
            ActionView::Continue,
        ),
        ControllerView::ForIn(value, name, body) => (
            m.begin(FrameView::ForInStart { name, body }, value),
            ActionView::Continue,
        ),
        ControllerView::While(condition, body) => (
            m.begin(FrameView::WhileTest { condition, body }, condition),
            ActionView::Continue,
        ),
        ControllerView::Scoped(expressions) => (
            m.with_env(m.env.with_scope(m.env.scope.child())).push(
                FrameView::Block { remaining: expressions },
            ),
            ActionView::Continue,
        ),
        ControllerView::Call(name, params) => match spec_resolve(m.env.scope, name) {
            Ok(ValueView::Function(function)) => spec_next_argument(
                m,
                function,
                params,
                params.len(),
                Seq::empty(),
            ),
            Ok(_) => spec_raise(m, SYNTAX),
            Err(code) => spec_raise(m, code),
        },
    }
}

/// The number of iterations that a scalar stands for: its whole part, none
/// where that is negative.
pub open spec fn spec_iterations(b: Buffer) -> u32 {
    if spec_to_count(b) > 0 {
        spec_to_count(b) as u32
    } else {
        0
    }
}

/// The environment after the loop variable, if the loop has one, is bound in
/// the current frame.
pub open spec fn with_loop_variable(env: EnvView, name: Option<Seq<char>>, value: ValueView) -> EnvView {
    match name {
        Some(n) => env.with_scope(env.scope.insert_locally(n, value)),
        None => env,
    }
}

/// Runs one directive.  `discard` is set where directives are read from an
/// expression rather than from the token stream; `rhs` is the right-hand side
/// of a binder.
pub open spec fn spec_dispatch(m: MachineView, d: DirectiveView, discard: bool, rhs: CodeView) -> (
    MachineView,
    ActionView,
) {
    match d {
        DirectiveView::ReadTop => match m.env.buffers.get_buf(0) {
            Some(b) => spec_deliver(m, spec_write(m.env, ValueView::Scalar(b))),
            None => spec_raise(m, BUFFER_INDEX),
        },
        DirectiveView::ReadAt(i) => match m.env.buffers.get_buf(i as int) {
            Some(b) => spec_deliver(m, spec_write(m.env, ValueView::Scalar(b))),
            None => spec_raise(m, BUFFER_INDEX),
        },
        DirectiveView::ReadIndexed(path, index) => (
            m.enter(ReturnView::Index { path, discard }, index),
            ActionView::Continue,
        ),
        DirectiveView::ReadLongIndexed(path, indices) => match spec_resolve(m.env.scope, path) {
            Ok(ValueView::Array(a)) => spec_next_index(m, a, indices),
            Ok(_) => spec_raise(m, SYNTAX),
            Err(code) => spec_raise(m, code),
        },
        DirectiveView::ReadNamed(path) => match spec_resolve(m.env.scope, path) {
            Ok(v) => spec_deliver(m, spec_write(m.env, v)),
            Err(code) => spec_raise(m, code),
        },
        DirectiveView::WriteInstruction(i) => (m.with_env(m.env.push_writer(i)), ActionView::Continue),
        DirectiveView::WriteLiteral(b) => spec_deliver(m, spec_write(m.env, ValueView::Scalar(b))),
        DirectiveView::WriteArray(items) => spec_next_element(m, items, 0, Seq::empty()),
        DirectiveView::WriteFunction(f) => spec_deliver(m, spec_write(m.env, ValueView::Function(f))),
        DirectiveView::WriteScope(fields) => spec_next_field(m, fields, 0, Seq::empty()),
        DirectiveView::Bind(mode, flavor, path) => spec_bind(m, mode, flavor, path, rhs),
        DirectiveView::Control(c) => spec_start(m, c),
        DirectiveView::Break => spec_raise(m, BREAK),
        DirectiveView::Return => spec_raise(m, RETURN),
        DirectiveView::RemoveTop => (
            m.with_env(m.env.with_buffers(m.env.buffers.pop())),
            ActionView::Continue,
        ),
    }
}

/// Takes the next directive of the expression on top and runs it.  A binder
/// takes its right-hand side from the directives that follow it, as many as
/// the capacity rule gives it.
pub open spec fn spec_run_directive_tokenless(m: MachineView) -> (MachineView, ActionView) {
    if m.frames.len() > 0 && m.frames.last() is Eval && m.frames.last()->Eval_0.len() > 0 {
        let s = m.frames.last()->Eval_0;
        let d = s.last();
        let rest = s.drop_last();
        let taken = if d is Bind {
            expression_len(rest, Seq::empty())
        } else {
            0
        };
        let keep = rest.len() - taken;
        spec_dispatch(
            m.pop().push(FrameView::Eval(rest.subrange(0, keep))),
            d,
            true,
            rest.subrange(keep, rest.len() as int),
        )
    } else {
        (m, ActionView::Continue)
    }
}

/// Goes on after the evaluation above `frame` has finished; `m` is the
/// machine without that frame.
pub open spec fn spec_resume(m: MachineView, frame: FrameView) -> (MachineView, ActionView) {
    match frame {
        FrameView::Eval(_) => (m, ActionView::Continue),
        FrameView::Pending(_) => (m, ActionView::Continue),
        FrameView::Return(then) => spec_returned(
            m.with_env(m.env.exit()),
            then,
            m.env.buffers.get_return(),
        ),
        FrameView::Bind { mode, flavor, path } => if flavor is ARR {
            match m.env.buffers.get_arr(0) {
                Some(a) => spec_assign(m, mode, path, ValueView::Array(a)),
                None => spec_raise(m, SYNTAX),
            }
        } else {
            match m.env.buffers.get_buf(0) {
                Some(b) => spec_assign(m, mode, path, ValueView::Scalar(b)),
                None => spec_raise(m, SYNTAX),
            }
        },
        FrameView::Branch { then, otherwise } => match m.env.buffers.get_buf(0) {
            Some(b) => if spec_truthy(b) {
                (m.push(FrameView::Eval(then)), ActionView::Continue)
            } else {
                match otherwise {
                    Some(e) => (m.push(FrameView::Eval(e)), ActionView::Continue),
                    None => (m, ActionView::Continue),
                }
            },
            None => spec_raise(m, UNFILLED),
        },
        FrameView::ForStart { name, body } => match m.env.buffers.get_buf(0) {
            Some(b) => (
                m.with_env(m.env.with_scope(m.env.scope.child())).push(
                    FrameView::ForLoop { next: 0, end: spec_iterations(b), name, body },
                ),
                ActionView::Continue,
            ),
            None => spec_raise(m, SYNTAX),
        },
        FrameView::ForLoop { next, end, name, body } => if next < end {
            (
                m.with_env(
                    with_loop_variable(
                        m.env,
                        name,
                        ValueView::Scalar(spec_from_count(next as nat) as u32),
                    ),
                ).begin(FrameView::ForLoop { next: (next + 1) as u32, end, name, body }, body),
                ActionView::Continue,
            )
        } else {
            (m.with_env(released(m.env, frame)), ActionView::Continue)
        },
        FrameView::ForInStart { name, body } => match m.env.buffers.get_arr(0) {
            Some(items) => (
                m.with_env(m.env.with_scope(m.env.scope.child())).push(
                    FrameView::ForInLoop { items, next: 0, name, body },
                ),
                ActionView::Continue,
            ),
            None => spec_raise(m, SYNTAX),
        },
        FrameView::ForInLoop { items, next, name, body } => if next < items.len() {
            (
                m.with_env(with_loop_variable(m.env, name, items[next as int])).begin(
                    FrameView::ForInLoop { items, next: next + 1, name, body },
                    body,
                ),
                ActionView::Continue,
            )
        } else {
            (m.with_env(released(m.env, frame)), ActionView::Continue)
        },
        FrameView::WhileTest { condition, body } => match m.env.buffers.get_buf(0) {
            Some(b) => if spec_truthy(b) {
                (m.begin(FrameView::WhileBody { condition, body }, body), ActionView::Continue)
            } else {
                (m, ActionView::Continue)
            },
            None => spec_raise(m, SYNTAX),
        },
        FrameView::WhileBody { condition, body } => (
            m.begin(FrameView::WhileTest { condition, body }, condition),
            ActionView::Continue,
        ),
        FrameView::Block { remaining } => if remaining.len() > 0 {
            (
                m.begin(FrameView::Block { remaining: remaining.drop_last() }, remaining.last()),
                ActionView::Continue,
            )
        } else {
            (m.with_env(released(m.env, frame)), ActionView::Continue)
        },
        FrameView::CallBody { returntype } => spec_finish_call(m, returntype),
    }
}

/// Goes on with the value that an evaluation in a partition returned; `m` is
/// the machine after the partition was given up.
pub open spec fn spec_returned(m: MachineView, then: ReturnView, value: Option<ValueView>) -> (
    MachineView,
    ActionView,
) {
    match then {
        ReturnView::Index { path, discard } => match value {
            Some(ValueView::Scalar(b)) => match spec_resolve(m.env.scope, path) {
                Ok(ValueView::Array(a)) => match element_at(a, b) {
                    Some(v) => {
                        let env = if discard {
                            m.env.with_buffers(m.env.buffers.pop())
                        } else {
                            m.env
                        };
                        spec_deliver(m.with_env(env), spec_write(env, v))
                    },
                    None => spec_raise(m, SYNTAX),
                },
                Ok(_) => spec_raise(m, SYNTAX),
                Err(code) => spec_raise(m, code),
            },
            _ => spec_raise(m, SYNTAX),
        },
        ReturnView::LongIndex { array, remaining } => match value {
            Some(ValueView::Scalar(b)) => match element_at(array, b) {
                Some(v) => if remaining.len() == 0 {
                    spec_deliver(m, spec_write(m.env, v))
                } else {
                    match v {
                        ValueView::Array(inner) => spec_next_index(m, inner, remaining),
                        _ => spec_raise(m, SYNTAX),
                    }
                },
                None => spec_raise(m, SYNTAX),
            },
            _ => spec_raise(m, SYNTAX),
        },
        ReturnView::Elements { items, next, done } => match value {
            Some(v) => spec_next_element(m, items, next, done.push(v)),
            None => spec_raise(m, SYNTAX),
        },
        ReturnView::Fields { fields, next, done } => match value {
            Some(v) => if 0 < next <= fields.len() && fields[next - 1].1 == v.tag() {
                spec_next_field(m, fields, next, scope_insert(done, fields[next - 1].0, v))
            } else {
                spec_raise(m, SYNTAX)
            },
            None => spec_raise(m, SYNTAX),
        },
        ReturnView::BindValue { flavor, path } => match value {
            Some(v) => if flavor == v.tag() {
                spec_assign(m, InsertMode::Normal, path, v)
            } else {
                spec_raise(m, SYNTAX)
            },
            None => spec_raise(m, SYNTAX),
        },
        ReturnView::Arguments { function, items, remaining, done } => match value {
            Some(v) => spec_next_argument(m, function, items, remaining, done.push(v)),
            None => spec_raise(m, SYNTAX),
        },
    }
}

/// One transition.  An empty frame stack means there is nothing to do.  A
/// pending request takes its answer and lets the result flow on; without an
/// answer the request is repeated.  An expression runs its next directive or,
/// when none is left, ends.  Any other frame goes on after the evaluation that
/// it waited for.  An answer that no request asked for is ignored.
pub open spec fn spec_step(m: MachineView, event: Event) -> (MachineView, ActionView) {
    if m.frames.len() == 0 {
        (m, ActionView::Idle)
    } else {
        match m.frames.last() {
            FrameView::Pending(request) => match event {
                Event::Scalar(b) => spec_deliver(m.pop(), spec_write(m.env, ValueView::Scalar(b))),
                Event::Resume => (m, ActionView::Ask(request)),
            },
            FrameView::Eval(s) => if s.len() == 0 {
                (m.pop(), ActionView::Continue)
            } else {
                spec_run_directive_tokenless(m)
            },
            frame => spec_resume(m.pop(), frame),
        }
    }
}

/// Writing a value changes nothing but the overlay of the operand stack and
/// the current writers.
pub proof fn lemma_write_keeps_depth(env: EnvView, value: ValueView)
    ensures
        spec_write(env, value).0.buffers.prev == env.buffers.prev,
        spec_write(env, value).0.writers.len() == env.writers.len(),
        spec_write(env, value).0.scope == env.scope,
    decreases env.current_writers().len(),
{
    let writers = env.current_writers();
    if writers.len() > 0 {
        match value {
            ValueView::Scalar(b) => {
                let top = writers[0];
                if !top.spec_is_full() {
                    let fed = top.spec_fed(b);
                    if fed.spec_is_full() {
                        let rest = env.with_current_writers(writers.subrange(1, writers.len() as int));
                        match fed.spec_request().spec_decide() {
                            Some(r) => {
                                assert(rest.current_writers() =~= writers.subrange(1, writers.len() as int));
                                lemma_write_keeps_depth(rest, ValueView::Scalar(r));
                            },
                            None => {},
                        }
                    }
                }
            },
            _ => {},
        }
    }
}

/// With no writer pending, writing a value is a push onto the operand stack.
pub proof fn law_write_without_writers(env: EnvView, value: ValueView)
    requires
        env.current_writers().len() == 0,
    ensures
        spec_write(env, value) == (env.with_buffers(env.buffers.push(value)), FlowView::Next),
{
}

/// A call of a function that declares the null type ends without a push when
/// its body has left nothing in its partition: the caller's operand stack,
/// writers and scope are what they were before the call.
pub proof fn law_null_return_pushes_nothing(caller: EnvView, body: EnvView, frames: Seq<FrameView>)
    requires
        body.buffers.prev == caller.buffers.wrap().prev,
        body.buffers.new.len() == 0,
        caller.writers.len() > 0,
        body.writers.drop_last() == caller.writers,
        body.writers.len() > 0,
        body.scope.parents == caller.scope.child().parents,
    ensures
        spec_finish_call(MachineView { env: body, frames }, CreateType::NUL) == (
            MachineView { env: caller, frames },
            ActionView::Continue,
        ),
        forall|event: Event|
            #[trigger] spec_step(
                MachineView {
                    env: body,
                    frames: frames.push(FrameView::CallBody { returntype: CreateType::NUL }),
                },
                event,
            ) == (MachineView { env: caller, frames }, ActionView::Continue),
{
    assert(caller.buffers.wrap().prev.drop_last() =~= caller.buffers.prev);
    assert(caller.scope.child().parents.drop_last() =~= caller.scope.parents);
    let waiting = MachineView {
        env: body,
        frames: frames.push(FrameView::CallBody { returntype: CreateType::NUL }),
    };
    assert(waiting.pop().frames =~= frames);
}

} // verus!
