//! Capacity and writers stay in step.
//!
//! The builder counts open places on its capacity stack; the evaluator fills
//! slots of the writers on its writer stack.  For an expression made of
//! instructions and scalars the two stacks mirror each other, whatever the
//! caller answers to the requests for arithmetic.  So an expression that is
//! complete under capacity one ends with every writer fired and exactly one
//! value more on the operand stack.
use vstd::prelude::*;
use crate::builder::initial_capacity;
use crate::builder::lemma_read_token_shrinks;
use crate::builder::spec_build;
use crate::builder::spec_read_mutable_buffer;
use crate::builder::spec_read_token;
use crate::instructions::Instruction;
use crate::instructions::Request;
use crate::machine::EnvView;
use crate::machine::Event;
use crate::machine::FlowView;
use crate::machine::FrameView;
use crate::machine::MachineView;
use crate::machine::capacity_after;
use crate::machine::settle;
use crate::machine::spec_deliver;
use crate::machine::spec_dispatch;
use crate::machine::spec_step;
use crate::machine::spec_write;
use crate::model::CodeView;
use crate::model::DirectiveView;
use crate::model::ValueView;
use crate::scalar::Buffer;
use crate::scope::spec_resolve;
use crate::tokenizer::Token;

verus! {

impl Instruction {
    /// The number of empty slots.
    pub open spec fn spec_free(&self) -> int {
        match self {
            Instruction::Binary(b) => (if b.left is None {
                1int
            } else {
                0int
            }) + (if b.right is None {
                1int
            } else {
                0int
            }),
            Instruction::Unary(u) => if u.value is None {
                1
            } else {
                0
            },
        }
    }
}

/// The scalar that a directive writes when it runs against these operand
/// stacks and this scope chain: the number of a literal, the scalar that a
/// read of the operand stack or of a name finds.  `None` for every other
/// directive, and for a read that fails or finds another kind of value.
pub open spec fn scalar_of(d: DirectiveView, env: EnvView) -> Option<Buffer> {
    match d {
        DirectiveView::WriteLiteral(b) => Some(b),
        DirectiveView::ReadTop => env.buffers.get_buf(0),
        DirectiveView::ReadAt(i) => env.buffers.get_buf(i as int),
        DirectiveView::ReadNamed(path) => match spec_resolve(env.scope, path) {
            Ok(ValueView::Scalar(b)) => Some(b),
            _ => None,
        },
        _ => None,
    }
}

/// Whether a directive is an instruction with every slot empty or writes a
/// scalar.
pub open spec fn is_plain(d: DirectiveView, env: EnvView) -> bool {
    match d {
        DirectiveView::WriteInstruction(i) => i.spec_free() == i.spec_capacity(),
        _ => scalar_of(d, env) is Some,
    }
}

/// Whether an expression is made of empty instructions, literals and reads
/// that find a scalar alone.
pub open spec fn plain_code(code: CodeView, env: EnvView) -> bool {
    forall|i: int| 0 <= i < code.len() ==> is_plain(#[trigger] code[i], env)
}

/// Whether the capacity rule ends the expression exactly with its last
/// directive in source order, which is stored first.
pub open spec fn closes_at(code: CodeView, stack: Seq<int>) -> bool
    decreases code.len(),
{
    if code.len() == 0 {
        false
    } else {
        let (next, stop) = capacity_after(stack, code.last());
        if stop {
            code.len() == 1
        } else {
            closes_at(code.drop_last(), next)
        }
    }
}

/// Whether a capacity stack mirrors the writers: above the one place that the
/// expression itself fills, one capacity for each writer, the innermost for
/// the front writer, each the number of slots still empty.
pub open spec fn in_step(stack: Seq<int>, writers: Seq<Instruction>) -> bool {
    &&& stack.len() == writers.len() + 1
    &&& stack[0] == 1
    &&& forall|i: int|
        0 <= i < writers.len() ==> stack[stack.len() - 1 - i] == (#[trigger] writers[i]).spec_free()
            && writers[i].spec_free() >= 1
}

/// Whether two environments differ at most in the overlay of the operand
/// stack and in the current writers.
pub open spec fn same_outside(a: EnvView, b: EnvView) -> bool {
    &&& a.buffers.prev == b.buffers.prev
    &&& a.scope == b.scope
    &&& a.writers.len() == b.writers.len()
    &&& a.writers.len() > 0
    &&& a.writers.drop_last() == b.writers.drop_last()
}

/// Whether `after` is `before` with one value more at the front of the
/// operand stack and no writer pending.
pub open spec fn one_value_more(before: EnvView, after: EnvView) -> bool {
    &&& same_outside(before, after)
    &&& after.current_writers().len() == 0
    &&& after.buffers.new.len() == before.buffers.new.len() + 1
    &&& after.buffers.new.subrange(1, after.buffers.new.len() as int) == before.buffers.new
}

/// What the caller hands to the next transition: the answer to the request
/// that is out, if one is.
pub open spec fn spec_event(m: MachineView, host: spec_fn(Request) -> Buffer) -> Event {
    if m.frames.len() > 0 && m.frames.last() is Pending {
        Event::Scalar(host(m.frames.last()->Pending_0))
    } else {
        Event::Resume
    }
}

/// The machine after a number of transitions with a caller that answers every
/// request by `host`.
pub open spec fn spec_run(m: MachineView, host: spec_fn(Request) -> Buffer, steps: nat) -> MachineView
    decreases steps,
{
    if steps == 0 {
        m
    } else {
        spec_run(spec_step(m, spec_event(m, host)).0, host, (steps - 1) as nat)
    }
}

/// Running on is running further.
pub proof fn lemma_run_on(m: MachineView, host: spec_fn(Request) -> Buffer, a: nat, b: nat)
    ensures
        spec_run(m, host, a + b) == spec_run(spec_run(m, host, a), host, b),
    decreases a,
{
    if a > 0 {
        lemma_run_on(spec_step(m, spec_event(m, host)).0, host, (a - 1) as nat, b);
        assert(((a + b) - 1) as nat == ((a - 1) as nat) + b);
    }
}

/// A scalar that is written while capacity and writers are in step leaves
/// them in step: after the transitions that answer the requests of the
/// writers it fills, either a place is still open and the operand stack is
/// untouched, or no place is open, no writer is left and the operand stack
/// has one value more.
pub proof fn lemma_flow(
    env: EnvView,
    b: Buffer,
    frames: Seq<FrameView>,
    stack: Seq<int>,
    host: spec_fn(Request) -> Buffer,
) -> (steps: nat)
    requires
        env.writers.len() > 0,
        in_step(stack, env.current_writers()),
    ensures
        ({
            let start = spec_deliver(
                MachineView { env, frames },
                spec_write(env, ValueView::Scalar(b)),
            ).0;
            let end = spec_run(start, host, steps);
            let (next, complete) = settle(stack, 1);
            &&& end.frames == frames
            &&& same_outside(env, end.env)
            &&& if complete {
                next.len() == 0 && one_value_more(env, end.env)
            } else {
                in_step(next, end.env.current_writers()) && end.env.buffers.new == env.buffers.new
            }
        }),
    decreases env.current_writers().len(),
{
    let writers = env.current_writers();
    let m = MachineView { env, frames };
    let written = spec_write(env, ValueView::Scalar(b));
    if writers.len() == 0 {
        assert(stack =~= seq![1int]);
        assert(stack.drop_last() =~= Seq::<int>::empty());
        assert(settle(stack.drop_last(), 1) == (Seq::<int>::empty(), true));
        assert(settle(stack, 1) == (Seq::<int>::empty(), true));
        let after = written.0;
        assert(after.buffers.new.subrange(1, after.buffers.new.len() as int) =~= env.buffers.new);
        assert(one_value_more(env, after));
        0
    } else {
        let top = writers[0];
        assert(top.spec_free() >= 1);
        assert(stack.last() == top.spec_free());
        let fed = top.spec_fed(b);
        assert(fed.spec_free() == top.spec_free() - 1);
        assert(!top.spec_is_full());
        if fed.spec_is_full() {
            assert(top.spec_free() == 1);
            let rest_writers = writers.subrange(1, writers.len() as int);
            let rest = env.with_current_writers(rest_writers);
            let below = stack.drop_last();
            assert(rest.current_writers() =~= rest_writers);
            assert(in_step(below, rest_writers)) by {
                assert forall|i: int| 0 <= i < rest_writers.len() implies below[below.len() - 1 - i] == (
                #[trigger] rest_writers[i]).spec_free() && rest_writers[i].spec_free() >= 1 by {
                    assert(rest_writers[i] == writers[i + 1]);
                }
            }
            assert(settle(stack, 1) == settle(below, 1));
            assert(rest.writers.drop_last() =~= env.writers.drop_last());
            let request = fed.spec_request();
            match request.spec_decide() {
                Some(r) => {
                    assert(written == spec_write(rest, ValueView::Scalar(r)));
                    let steps = lemma_flow(rest, r, frames, below, host);
                    assert(spec_deliver(m, written) == spec_deliver(
                        MachineView { env: rest, frames },
                        spec_write(rest, ValueView::Scalar(r)),
                    ));
                    let end = spec_run(spec_deliver(m, written).0, host, steps);
                    assert(end.env.writers.drop_last() =~= env.writers.drop_last());
                    steps
                },
                None => {
                    assert(written == (rest, FlowView::Ask(request)));
                    let start = spec_deliver(m, written).0;
                    assert(start == MachineView { env: rest, frames: frames.push(FrameView::Pending(request)) });
                    let answer = host(request);
                    assert(spec_event(start, host) == Event::Scalar(answer));
                    assert(start.pop().frames =~= frames);
                    assert(spec_step(start, Event::Scalar(answer)) == spec_deliver(
                        start.pop(),
                        spec_write(rest, ValueView::Scalar(answer)),
                    ));
                    assert(start.pop() == MachineView { env: rest, frames });
                    let steps = lemma_flow(rest, answer, frames, below, host);
                    let next = spec_step(start, spec_event(start, host)).0;
                    assert(spec_run(start, host, (steps + 1) as nat) == spec_run(next, host, steps));
                    let end = spec_run(start, host, (steps + 1) as nat);
                    assert(end.env.writers.drop_last() =~= env.writers.drop_last());
                    (steps + 1) as nat
                },
            }
        } else {
            assert(top.spec_free() == 2);
            let after = env.with_current_writers(writers.update(0, fed));
            assert(written == (after, FlowView::Next));
            let next = stack.drop_last().push(1);
            assert(settle(stack, 1) == (next, false));
            assert(after.current_writers() =~= writers.update(0, fed));
            assert(in_step(next, after.current_writers())) by {
                assert forall|i: int| 0 <= i < writers.len() implies next[next.len() - 1 - i] == (
                #[trigger] after.current_writers()[i]).spec_free() && after.current_writers()[i].spec_free()
                    >= 1 by {
                    if i > 0 {
                        assert(after.current_writers()[i] == writers[i]);
                    }
                }
            }
            assert(after.writers.drop_last() =~= env.writers.drop_last());
            0
        }
    }
}

/// An expression of empty instructions and scalars, evaluated while capacity
/// and writers are in step, runs to its end in finitely many transitions: its
/// frame is gone, no writer is pending and the operand stack has one value
/// more.
pub proof fn lemma_balance(
    env: EnvView,
    code: CodeView,
    base: Seq<FrameView>,
    stack: Seq<int>,
    host: spec_fn(Request) -> Buffer,
) -> (steps: nat)
    requires
        plain_code(code, env),
        closes_at(code, stack),
        env.writers.len() > 0,
        in_step(stack, env.current_writers()),
    ensures
        ({
            let end = spec_run(MachineView { env, frames: base.push(FrameView::Eval(code)) }, host, steps);
            &&& end.frames == base
            &&& one_value_more(env, end.env)
        }),
    decreases code.len(),
{
    let m = MachineView { env, frames: base.push(FrameView::Eval(code)) };
    let d = code.last();
    let rest = code.drop_last();
    let frames = base.push(FrameView::Eval(rest));
    let resumed = MachineView { env, frames };
    assert(is_plain(d, env));
    assert(spec_event(m, host) == Event::Resume);
    assert(m.pop().frames =~= base);
    assert(rest.subrange(0, rest.len() as int) =~= rest);
    assert(rest.subrange(rest.len() as int, rest.len() as int) =~= Seq::<DirectiveView>::empty());
    assert(m.pop().push(FrameView::Eval(rest)) == resumed);
    assert(spec_step(m, Event::Resume) == spec_dispatch(resumed, d, true, Seq::empty()));
    assert forall|i: int| 0 <= i < rest.len() implies is_plain(#[trigger] rest[i], env) by {
        assert(rest[i] == code[i]);
    }
    match d {
        DirectiveView::WriteInstruction(i) => {
            let writers = env.current_writers();
            let after = env.push_writer(i);
            let next = stack.push(i.spec_capacity());
            assert(capacity_after(stack, d) == (next, false));
            assert(after.current_writers() =~= seq![i] + writers);
            assert(in_step(next, after.current_writers())) by {
                assert forall|k: int| 0 <= k < after.current_writers().len() implies next[next.len() - 1 - k]
                    == (#[trigger] after.current_writers()[k]).spec_free() && after.current_writers()[k].spec_free()
                    >= 1 by {
                    if k > 0 {
                        assert(after.current_writers()[k] == writers[k - 1]);
                    }
                }
            }
            assert(after.writers.drop_last() =~= env.writers.drop_last());
            assert(spec_step(m, Event::Resume).0 == MachineView { env: after, frames });
            assert(plain_code(rest, after)) by {
                assert forall|k: int| 0 <= k < rest.len() implies is_plain(#[trigger] rest[k], after) by {
                    assert(is_plain(rest[k], env));
                }
            }
            let steps = lemma_balance(after, rest, base, next, host);
            let end = spec_run(MachineView { env: after, frames }, host, steps);
            assert(spec_run(m, host, (steps + 1) as nat) == end);
            assert(end.env.writers.drop_last() =~= env.writers.drop_last());
            (steps + 1) as nat
        },
        _ => {
            let b = scalar_of(d, env)->0;
            let (next, complete) = settle(stack, 1);
            assert(capacity_after(stack, d) == (next, complete || next.len() == 0));
            let flowing = lemma_flow(env, b, frames, stack, host);
            let start = spec_step(m, Event::Resume).0;
            assert(start == spec_deliver(resumed, spec_write(env, ValueView::Scalar(b))).0);
            let flowed = spec_run(start, host, flowing);
            assert(spec_run(m, host, (flowing + 1) as nat) == flowed);
            if complete {
                assert(rest.len() == 0);
                assert(flowed.frames.last() == FrameView::Eval(rest));
                assert(spec_event(flowed, host) == Event::Resume);
                assert(flowed.pop().frames =~= base);
                assert(spec_step(flowed, Event::Resume).0 == flowed.pop());
                assert(spec_run(flowed, host, 1) == spec_run(flowed.pop(), host, 0));
                lemma_run_on(m, host, (flowing + 1) as nat, 1);
                (flowing + 2) as nat
            } else {
                assert(next.len() > 0);
                assert(flowed.env.buffers == env.buffers);
                assert(plain_code(rest, flowed.env)) by {
                    assert forall|k: int| 0 <= k < rest.len() implies is_plain(
                        #[trigger] rest[k],
                        flowed.env,
                    ) by {
                        assert(is_plain(rest[k], env));
                    }
                }
                let more = lemma_balance(flowed.env, rest, base, next, host);
                assert(flowed == MachineView { env: flowed.env, frames });
                lemma_run_on(m, host, (flowing + 1) as nat, more);
                let end = spec_run(flowed, host, more);
                assert(end.env.writers.drop_last() =~= env.writers.drop_last());
                assert(end.env.buffers.new.subrange(1, end.env.buffers.new.len() as int) =~= env.buffers.new);
                (flowing + 1 + more) as nat
            }
        },
    }
}

/// An expression that is complete under capacity one leaves exactly one value
/// and no pending writer.  It holds of expressions made of instructions,
/// literals and reads that find a scalar, started with no writer pending, for
/// every answer the caller may give to the requests for arithmetic: after
/// `steps` transitions the expression's frame is gone, the writer stacks are
/// what they were, and the operand stack has one value more at its front.
pub proof fn law_complete_expression_leaves_one_value(
    env: EnvView,
    code: CodeView,
    base: Seq<FrameView>,
    host: spec_fn(Request) -> Buffer,
) -> (steps: nat)
    requires
        plain_code(code, env),
        closes_at(code, seq![1int]),
        env.writers.len() > 0,
        env.current_writers().len() == 0,
    ensures
        ({
            let end = spec_run(MachineView { env, frames: base.push(FrameView::Eval(code)) }, host, steps);
            &&& end.frames == base
            &&& end.env.writers == env.writers
            &&& end.env.scope == env.scope
            &&& end.env.buffers.prev == env.buffers.prev
            &&& end.env.buffers.new.len() == env.buffers.new.len() + 1
            &&& end.env.buffers.new.subrange(1, end.env.buffers.new.len() as int) == env.buffers.new
        }),
{
    let steps = lemma_balance(env, code, base, seq![1int], host);
    let end = spec_run(MachineView { env, frames: base.push(FrameView::Eval(code)) }, host, steps);
    assert(end.env.writers =~= env.writers) by {
        assert(end.env.writers.last() =~= env.writers.last());
        assert(end.env.writers =~= end.env.writers.drop_last().push(end.env.writers.last()));
        assert(env.writers =~= env.writers.drop_last().push(env.writers.last()));
    }
    steps
}

/// The capacity stack after the directives of `source`, taken in source
/// order, have joined an expression that none of them ends; `None` where one
/// of them ends it.
pub open spec fn capacity_through(source: CodeView, stack: Seq<int>) -> Option<Seq<int>>
    decreases source.len(),
{
    if source.len() == 0 {
        Some(stack)
    } else {
        let (next, stop) = capacity_after(stack, source[0]);
        if stop {
            None
        } else {
            capacity_through(source.subrange(1, source.len() as int), next)
        }
    }
}

proof fn lemma_through_one_more(source: CodeView, start: Seq<int>, stack: Seq<int>, d: DirectiveView)
    requires
        capacity_through(source, start) == Some(stack),
        !capacity_after(stack, d).1,
    ensures
        capacity_through(source.push(d), start) == Some(capacity_after(stack, d).0),
    decreases source.len(),
{
    let longer = source.push(d);
    assert(longer[0] == if source.len() == 0 {
        d
    } else {
        source[0]
    });
    if source.len() == 0 {
        let tail = longer.subrange(1, longer.len() as int);
        assert(tail =~= Seq::<DirectiveView>::empty());
        assert(capacity_through(tail, capacity_after(stack, d).0) == Some(capacity_after(stack, d).0));
    } else {
        let next = capacity_after(start, source[0]).0;
        lemma_through_one_more(source.subrange(1, source.len() as int), next, stack, d);
        assert(longer.subrange(1, longer.len() as int) =~= source.subrange(1, source.len() as int).push(d));
    }
}

proof fn lemma_closes_with(source: CodeView, start: Seq<int>, stack: Seq<int>, d: DirectiveView)
    requires
        capacity_through(source, start) == Some(stack),
        capacity_after(stack, d).1,
    ensures
        closes_at(source.push(d).reverse(), start),
    decreases source.len(),
{
    let longer = source.push(d);
    let code = longer.reverse();
    assert(code.last() == longer[0]);
    if source.len() == 0 {
        assert(code.len() == 1);
    } else {
        let next = capacity_after(start, source[0]).0;
        let tail = source.subrange(1, source.len() as int);
        lemma_closes_with(tail, next, stack, d);
        assert(code.drop_last() =~= tail.push(d).reverse());
    }
}

proof fn lemma_built_closes(
    tokens: Seq<Token>,
    start: Seq<int>,
    stack: Seq<int>,
    acc: CodeView,
)
    requires
        capacity_through(acc, start) == Some(stack),
        spec_build(tokens, stack, acc) is Ok,
        spec_build(tokens, stack, acc)->Ok_0.1.len() > 0,
    ensures
        closes_at(spec_build(tokens, stack, acc)->Ok_0.0, start),
    decreases tokens.len(),
{
    let built = spec_build(tokens, stack, acc)->Ok_0;
    if tokens.len() > 0 {
        let read = spec_read_token(tokens)->Ok_0;
        let d = read.0;
        let rest = read.1;
        let (next, stop) = capacity_after(stack, d);
        lemma_read_token_shrinks(tokens);
        if stop || rest.len() >= tokens.len() {
            assert(built.0 == acc.push(d).reverse());
            lemma_closes_with(acc, start, stack, d);
        } else {
            lemma_through_one_more(acc, start, stack, d);
            lemma_built_closes(rest, start, next, acc.push(d));
        }
    }
}

/// An expression that was built with capacity one, and after which tokens
/// are left, is complete: the capacity rule ended it, not the end of the
/// tokens.
pub proof fn law_built_expression_is_complete(tokens: Seq<Token>)
    requires
        spec_read_mutable_buffer(tokens, Some(1)) is Ok,
        spec_read_mutable_buffer(tokens, Some(1))->Ok_0.1.len() > 0,
    ensures
        closes_at(spec_read_mutable_buffer(tokens, Some(1))->Ok_0.0, seq![1int]),
{
    assert(initial_capacity(Some(1)) =~= seq![1int]);
    lemma_built_closes(tokens, seq![1int], seq![1int], Seq::empty());
}

} // verus!
