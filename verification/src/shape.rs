//! Frames and environment keep in step.
//!
//! Some frames own a part of the environment: a frame that waits for an
//! evaluation in a partition owns the partition and its writer stack, a loop
//! or a block owns a frame of the scope chain, a function body owns all
//! three.  Every transition opens and gives up these parts together with the
//! frames that own them, so the environment is always as deep as the frame
//! stack says.
use vstd::prelude::*;
use crate::errors::ARGUMENT;
use crate::errors::BREAK;
use crate::errors::BUFFER_INDEX;
use crate::errors::RETURN;
use crate::errors::SYNTAX;
use crate::errors::UNFILLED;
use crate::machine::EnvView;
use crate::machine::Event;
use crate::machine::FlowView;
use crate::machine::FrameView;
use crate::machine::MachineView;
use crate::machine::ReturnView;
use crate::machine::absorbs;
use crate::machine::element_at;
use crate::machine::expression_len;
use crate::machine::lemma_write_keeps_depth;
use crate::machine::mistyped;
use crate::machine::released;
use crate::machine::seeded;
use crate::machine::spec_assign;
use crate::machine::spec_call;
use crate::machine::spec_deliver;
use crate::machine::spec_dispatch;
use crate::machine::spec_finish_call;
use crate::machine::spec_iterations;
use crate::machine::spec_next_argument;
use crate::machine::spec_next_element;
use crate::machine::spec_next_field;
use crate::machine::spec_next_index;
use crate::machine::spec_raise;
use crate::machine::spec_resume;
use crate::machine::spec_returned;
use crate::machine::spec_start;
use crate::machine::spec_step;
use crate::machine::spec_write;
use crate::machine::with_loop_variable;
use crate::model::CodeView;
use crate::model::ControllerView;
use crate::model::CreateType;
use crate::model::DirectiveView;
use crate::model::FieldsView;
use crate::model::FunctionView;
use crate::model::Path;
use crate::model::ScopeView;
use crate::model::ValueView;
use crate::scalar::spec_from_count;
use crate::scope::ChainView;
use crate::scope::InsertMode;
use crate::scope::lemma_insert_keeps_depth;
use crate::scope::scope_insert;
use crate::scope::spec_insert_at;
use crate::scope::spec_resolve;

verus! {

/// The number of partitions, each with its writer stack, that a frame owns.
pub open spec fn owned_partitions(frame: FrameView) -> nat {
    match frame {
        FrameView::Return(_) => 1,
        FrameView::CallBody { .. } => 1,
        _ => 0,
    }
}

/// The number of frames of the scope chain that a frame owns.
pub open spec fn owned_scopes(frame: FrameView) -> nat {
    match frame {
        FrameView::ForLoop { .. } => 1,
        FrameView::ForInLoop { .. } => 1,
        FrameView::Block { .. } => 1,
        FrameView::CallBody { .. } => 1,
        _ => 0,
    }
}

/// The number of partitions that the frames own.
pub open spec fn partitions(frames: Seq<FrameView>) -> nat
    decreases frames.len(),
{
    if frames.len() == 0 {
        0
    } else {
        partitions(frames.drop_last()) + owned_partitions(frames.last())
    }
}

/// The number of frames of the scope chain that the frames own.
pub open spec fn scopes(frames: Seq<FrameView>) -> nat
    decreases frames.len(),
{
    if frames.len() == 0 {
        0
    } else {
        scopes(frames.drop_last()) + owned_scopes(frames.last())
    }
}

/// The depth of an environment that no frame owns a part of.
pub struct Depth {
    pub layers: nat,
    pub writers: nat,
    pub scopes: nat,
}

/// Whether the environment is as deep as the frames say, above `base`.
pub open spec fn shaped(m: MachineView, base: Depth) -> bool {
    &&& base.writers >= 1
    &&& m.env.buffers.prev.len() == base.layers + partitions(m.frames)
    &&& m.env.writers.len() == base.writers + partitions(m.frames)
    &&& m.env.scope.parents.len() == base.scopes + scopes(m.frames)
}

proof fn lemma_pushed(frames: Seq<FrameView>, frame: FrameView)
    ensures
        partitions(frames.push(frame)) == partitions(frames) + owned_partitions(frame),
        scopes(frames.push(frame)) == scopes(frames) + owned_scopes(frame),
{
    assert(frames.push(frame).drop_last() =~= frames);
}

proof fn lemma_begun(m: MachineView, frame: FrameView, expression: CodeView)
    ensures
        partitions(m.begin(frame, expression).frames) == partitions(m.frames) + owned_partitions(frame),
        scopes(m.begin(frame, expression).frames) == scopes(m.frames) + owned_scopes(frame),
{
    lemma_pushed(m.frames, frame);
    lemma_pushed(m.frames.push(frame), FrameView::Eval(expression));
}

proof fn lemma_entered(m: MachineView, then: ReturnView, expression: CodeView, base: Depth)
    requires
        shaped(m, base),
    ensures
        shaped(m.enter(then, expression), base),
{
    lemma_begun(m.with_env(m.env.enter()), FrameView::Return(then), expression);
}

proof fn lemma_raise_shaped(m: MachineView, code: usize, base: Depth)
    requires
        shaped(m, base),
    ensures
        shaped(spec_raise(m, code).0, base),
    decreases m.frames.len(), 0nat,
{
    if m.frames.len() > 0 {
        let frame = m.frames.last();
        assert(m.pop().push(frame).frames =~= m.frames);
        if frame is CallBody && code == RETURN {
            lemma_finish_shaped(m.pop(), frame->returntype, base);
        } else {
            let rest = m.pop().with_env(released(m.env, frame));
            if !absorbs(frame, code) {
                lemma_raise_shaped(rest, code, base);
            }
        }
    }
}

proof fn lemma_deliver_shaped(m: MachineView, outcome: (EnvView, FlowView), base: Depth)
    requires
        shaped(m.with_env(outcome.0), base),
    ensures
        shaped(spec_deliver(m, outcome).0, base),
    decreases m.frames.len(), 1nat,
{
    match outcome.1 {
        FlowView::Throw(code) => {
            lemma_raise_shaped(m.with_env(outcome.0), code, base);
        },
        FlowView::Ask(request) => {
            lemma_pushed(m.frames, FrameView::Pending(request));
        },
        FlowView::Next => {},
    }
}

proof fn lemma_finish_shaped(m: MachineView, returntype: CreateType, base: Depth)
    requires
        shaped(m.push(FrameView::CallBody { returntype }), base),
    ensures
        shaped(spec_finish_call(m, returntype).0, base),
    decreases m.frames.len(), 2nat,
{
    lemma_pushed(m.frames, FrameView::CallBody { returntype });
    let result = match m.env.buffers.get_return() {
        Some(v) => v,
        None => ValueView::Null,
    };
    let env = released(m.env, FrameView::CallBody { returntype });
    let caller = m.with_env(env);
    assert(shaped(caller, base));
    if returntype == result.tag() {
        if !(result is Null) {
            lemma_write_keeps_depth(env, result);
            lemma_deliver_shaped(caller, spec_write(env, result), base);
        }
    } else {
        lemma_raise_shaped(caller, SYNTAX, base);
    }
}

proof fn lemma_written_shaped(m: MachineView, value: ValueView, base: Depth)
    requires
        shaped(m, base),
    ensures
        shaped(spec_deliver(m, spec_write(m.env, value)).0, base),
{
    lemma_write_keeps_depth(m.env, value);
    lemma_deliver_shaped(m, spec_write(m.env, value), base);
}

proof fn lemma_assign_shaped(m: MachineView, mode: InsertMode, path: Path, value: ValueView, base: Depth)
    requires
        shaped(m, base),
    ensures
        shaped(spec_assign(m, mode, path, value).0, base),
{
    lemma_insert_keeps_depth(m.env.scope, path, value, mode);
    match spec_insert_at(m.env.scope, path, value, mode) {
        Ok(_) => {},
        Err(code) => {
            lemma_raise_shaped(m, code, base);
        },
    }
}

proof fn lemma_call_shaped(m: MachineView, function: FunctionView, args: Seq<ValueView>, base: Depth)
    requires
        shaped(m, base),
    ensures
        shaped(spec_call(m, function, args).0, base),
{
    if args.len() != function.params.len() || mistyped(function.params, args) {
        lemma_raise_shaped(m, ARGUMENT, base);
    } else {
        let scope = m.env.scope.child();
        let bound = ChainView {
            parents: scope.parents,
            scope: seeded(scope.scope, function.params, args, args.len()),
        };
        let env = m.env.with_scope(bound).enter();
        lemma_begun(m.with_env(env), FrameView::CallBody { returntype: function.returntype }, function.body);
    }
}

proof fn lemma_next_argument_shaped(
    m: MachineView,
    function: FunctionView,
    items: Seq<CodeView>,
    remaining: nat,
    done: Seq<ValueView>,
    base: Depth,
)
    requires
        shaped(m, base),
    ensures
        shaped(spec_next_argument(m, function, items, remaining, done).0, base),
{
    if 0 < remaining <= items.len() {
        lemma_entered(
            m,
            ReturnView::Arguments { function, items, remaining: (remaining - 1) as nat, done },
            items[remaining - 1],
            base,
        );
    } else {
        lemma_call_shaped(m, function, done, base);
    }
}

proof fn lemma_next_element_shaped(
    m: MachineView,
    items: Seq<CodeView>,
    next: nat,
    done: Seq<ValueView>,
    base: Depth,
)
    requires
        shaped(m, base),
    ensures
        shaped(spec_next_element(m, items, next, done).0, base),
{
    if next < items.len() {
        lemma_entered(m, ReturnView::Elements { items, next: next + 1, done }, items[next as int], base);
    } else {
        lemma_written_shaped(m, ValueView::Array(done), base);
    }
}

proof fn lemma_next_field_shaped(m: MachineView, fields: FieldsView, next: nat, done: ScopeView, base: Depth)
    requires
        shaped(m, base),
    ensures
        shaped(spec_next_field(m, fields, next, done).0, base),
{
    if next < fields.len() {
        lemma_entered(m, ReturnView::Fields { fields, next: next + 1, done }, fields[next as int].2, base);
    } else {
        lemma_written_shaped(m, ValueView::Scope(done), base);
    }
}

proof fn lemma_next_index_shaped(m: MachineView, array: Seq<ValueView>, remaining: Seq<CodeView>, base: Depth)
    requires
        shaped(m, base),
    ensures
        shaped(spec_next_index(m, array, remaining).0, base),
{
    if remaining.len() > 0 {
        lemma_entered(
            m,
            ReturnView::LongIndex { array, remaining: remaining.drop_last() },
            remaining.last(),
            base,
        );
    } else {
        lemma_raise_shaped(m, SYNTAX, base);
    }
}

proof fn lemma_start_shaped(m: MachineView, c: ControllerView, base: Depth)
    requires
        shaped(m, base),
    ensures
        shaped(spec_start(m, c).0, base),
{
    match c {
        ControllerView::If(condition, then) => {
            lemma_begun(m, FrameView::Branch { then, otherwise: None }, condition);
        },
        ControllerView::IfElse(condition, then, otherwise) => {
            lemma_begun(m, FrameView::Branch { then, otherwise: Some(otherwise) }, condition);
        },
        ControllerView::For(times, name, body) => {
            lemma_begun(m, FrameView::ForStart { name, body }, times);
        },
        ControllerView::ForIn(value, name, body) => {
            lemma_begun(m, FrameView::ForInStart { name, body }, value);
        },
        ControllerView::While(condition, body) => {
            lemma_begun(m, FrameView::WhileTest { condition, body }, condition);
        },
        ControllerView::Scoped(expressions) => {
            lemma_pushed(m.frames, FrameView::Block { remaining: expressions });
        },
        ControllerView::Call(name, params) => {
            match spec_resolve(m.env.scope, name) {
                Ok(ValueView::Function(function)) => {
                    lemma_next_argument_shaped(m, function, params, params.len(), Seq::empty(), base);
                },
                Ok(_) => {
                    lemma_raise_shaped(m, SYNTAX, base);
                },
                Err(code) => {
                    lemma_raise_shaped(m, code, base);
                },
            }
        },
    }
}

proof fn lemma_dispatch_shaped(m: MachineView, d: DirectiveView, discard: bool, rhs: CodeView, base: Depth)
    requires
        shaped(m, base),
    ensures
        shaped(spec_dispatch(m, d, discard, rhs).0, base),
{
    match d {
        DirectiveView::ReadTop => {
            match m.env.buffers.get_buf(0) {
                Some(b) => {
                    lemma_written_shaped(m, ValueView::Scalar(b), base);
                },
                None => {
                    lemma_raise_shaped(m, BUFFER_INDEX, base);
                },
            }
        },
        DirectiveView::ReadAt(i) => {
            match m.env.buffers.get_buf(i as int) {
                Some(b) => {
                    lemma_written_shaped(m, ValueView::Scalar(b), base);
                },
                None => {
                    lemma_raise_shaped(m, BUFFER_INDEX, base);
                },
            }
        },
        DirectiveView::ReadIndexed(path, index) => {
            lemma_entered(m, ReturnView::Index { path, discard }, index, base);
        },
        DirectiveView::ReadLongIndexed(path, indices) => {
            match spec_resolve(m.env.scope, path) {
                Ok(ValueView::Array(a)) => {
                    lemma_next_index_shaped(m, a, indices, base);
                },
                Ok(_) => {
                    lemma_raise_shaped(m, SYNTAX, base);
                },
                Err(code) => {
                    lemma_raise_shaped(m, code, base);
                },
            }
        },
        DirectiveView::ReadNamed(path) => {
            match spec_resolve(m.env.scope, path) {
                Ok(v) => {
                    lemma_written_shaped(m, v, base);
                },
                Err(code) => {
                    lemma_raise_shaped(m, code, base);
                },
            }
        },
        DirectiveView::WriteInstruction(_) => {},
        DirectiveView::WriteLiteral(b) => {
            lemma_written_shaped(m, ValueView::Scalar(b), base);
        },
        DirectiveView::WriteArray(items) => {
            lemma_next_element_shaped(m, items, 0, Seq::empty(), base);
        },
        DirectiveView::WriteFunction(f) => {
            lemma_written_shaped(m, ValueView::Function(f), base);
        },
        DirectiveView::WriteScope(fields) => {
            lemma_next_field_shaped(m, fields, 0, Seq::empty(), base);
        },
        DirectiveView::Bind(mode, flavor, path) => {
            if flavor is BUF || flavor is ARR {
                lemma_begun(m, FrameView::Bind { mode, flavor, path }, rhs);
            } else {
                lemma_entered(m, ReturnView::BindValue { flavor, path }, rhs, base);
            }
        },
        DirectiveView::Control(c) => {
            lemma_start_shaped(m, c, base);
        },
        DirectiveView::Break => {
            lemma_raise_shaped(m, BREAK, base);
        },
        DirectiveView::Return => {
            lemma_raise_shaped(m, RETURN, base);
        },
        DirectiveView::RemoveTop => {},
    }
}

proof fn lemma_returned_shaped(m: MachineView, then: ReturnView, value: Option<ValueView>, base: Depth)
    requires
        shaped(m, base),
    ensures
        shaped(spec_returned(m, then, value).0, base),
{
    match then {
        ReturnView::Index { path, discard } => {
            match value {
                Some(ValueView::Scalar(b)) => {
                    match spec_resolve(m.env.scope, path) {
                        Ok(ValueView::Array(a)) => {
                            match element_at(a, b) {
                                Some(v) => {
                                    let env = if discard {
                                        m.env.with_buffers(m.env.buffers.pop())
                                    } else {
                                        m.env
                                    };
                                    lemma_written_shaped(m.with_env(env), v, base);
                                },
                                None => {
                                    lemma_raise_shaped(m, SYNTAX, base);
                                },
                            }
                        },
                        Ok(_) => {
                            lemma_raise_shaped(m, SYNTAX, base);
                        },
                        Err(code) => {
                            lemma_raise_shaped(m, code, base);
                        },
                    }
                },
                _ => {
                    lemma_raise_shaped(m, SYNTAX, base);
                },
            }
        },
        ReturnView::LongIndex { array, remaining } => {
            match value {
                Some(ValueView::Scalar(b)) => {
                    match element_at(array, b) {
                        Some(v) => {
                            if remaining.len() == 0 {
                                lemma_written_shaped(m, v, base);
                            } else {
                                match v {
                                    ValueView::Array(inner) => {
                                        lemma_next_index_shaped(m, inner, remaining, base);
                                    },
                                    _ => {
                                        lemma_raise_shaped(m, SYNTAX, base);
                                    },
                                }
                            }
                        },
                        None => {
                            lemma_raise_shaped(m, SYNTAX, base);
                        },
                    }
                },
                _ => {
                    lemma_raise_shaped(m, SYNTAX, base);
                },
            }
        },
        ReturnView::Elements { items, next, done } => {
            match value {
                Some(v) => {
                    lemma_next_element_shaped(m, items, next, done.push(v), base);
                },
                None => {
                    lemma_raise_shaped(m, SYNTAX, base);
                },
            }
        },
        ReturnView::Fields { fields, next, done } => {
            match value {
                Some(v) => {
                    if 0 < next <= fields.len() && fields[next - 1].1 == v.tag() {
                        lemma_next_field_shaped(
                            m,
                            fields,
                            next,
                            scope_insert(done, fields[next - 1].0, v),
                            base,
                        );
                    } else {
                        lemma_raise_shaped(m, SYNTAX, base);
                    }
                },
                None => {
                    lemma_raise_shaped(m, SYNTAX, base);
                },
            }
        },
        ReturnView::BindValue { flavor, path } => {
            match value {
                Some(v) => {
                    if flavor == v.tag() {
                        lemma_assign_shaped(m, InsertMode::Normal, path, v, base);
                    } else {
                        lemma_raise_shaped(m, SYNTAX, base);
                    }
                },
                None => {
                    lemma_raise_shaped(m, SYNTAX, base);
                },
            }
        },
        ReturnView::Arguments { function, items, remaining, done } => {
            match value {
                Some(v) => {
                    lemma_next_argument_shaped(m, function, items, remaining, done.push(v), base);
                },
                None => {
                    lemma_raise_shaped(m, SYNTAX, base);
                },
            }
        },
    }
}

proof fn lemma_resume_shaped(m: MachineView, frame: FrameView, base: Depth)
    requires
        shaped(m.push(frame), base),
    ensures
        shaped(spec_resume(m, frame).0, base),
{
    lemma_pushed(m.frames, frame);
    match frame {
        FrameView::Eval(_) => {},
        FrameView::Pending(_) => {},
        FrameView::Return(then) => {
            lemma_returned_shaped(m.with_env(m.env.exit()), then, m.env.buffers.get_return(), base);
        },
        FrameView::Bind { mode, flavor, path } => {
            if flavor is ARR {
                match m.env.buffers.get_arr(0) {
                    Some(a) => {
                        lemma_assign_shaped(m, mode, path, ValueView::Array(a), base);
                    },
                    None => {
                        lemma_raise_shaped(m, SYNTAX, base);
                    },
                }
            } else {
                match m.env.buffers.get_buf(0) {
                    Some(b) => {
                        lemma_assign_shaped(m, mode, path, ValueView::Scalar(b), base);
                    },
                    None => {
                        lemma_raise_shaped(m, SYNTAX, base);
                    },
                }
            }
        },
        FrameView::Branch { then, otherwise } => {
            lemma_raise_shaped(m, UNFILLED, base);
            lemma_pushed(m.frames, FrameView::Eval(then));
            if otherwise is Some {
                lemma_pushed(m.frames, FrameView::Eval(otherwise->0));
            }
        },
        FrameView::ForStart { name, body } => {
            lemma_raise_shaped(m, SYNTAX, base);
            match m.env.buffers.get_buf(0) {
                Some(b) => {
                    lemma_pushed(
                        m.frames,
                        FrameView::ForLoop { next: 0, end: spec_iterations(b), name, body },
                    );
                },
                None => {},
            }
        },
        FrameView::ForLoop { next, end, name, body } => {
            if next < end {
                lemma_begun(
                    m.with_env(
                        with_loop_variable(
                            m.env,
                            name,
                            ValueView::Scalar(spec_from_count(next as nat) as u32),
                        ),
                    ),
                    FrameView::ForLoop { next: (next + 1) as u32, end, name, body },
                    body,
                );
            }
        },
        FrameView::ForInStart { name, body } => {
            lemma_raise_shaped(m, SYNTAX, base);
            match m.env.buffers.get_arr(0) {
                Some(items) => {
                    lemma_pushed(m.frames, FrameView::ForInLoop { items, next: 0, name, body });
                },
                None => {},
            }
        },
        FrameView::ForInLoop { items, next, name, body } => {
            if next < items.len() {
                lemma_begun(
                    m.with_env(with_loop_variable(m.env, name, items[next as int])),
                    FrameView::ForInLoop { items, next: next + 1, name, body },
                    body,
                );
            }
        },
        FrameView::WhileTest { condition, body } => {
            lemma_raise_shaped(m, SYNTAX, base);
            lemma_begun(m, FrameView::WhileBody { condition, body }, body);
        },
        FrameView::WhileBody { condition, body } => {
            lemma_begun(m, FrameView::WhileTest { condition, body }, condition);
        },
        FrameView::Block { remaining } => {
            if remaining.len() > 0 {
                lemma_begun(m, FrameView::Block { remaining: remaining.drop_last() }, remaining.last());
            }
        },
        FrameView::CallBody { returntype } => {
            lemma_finish_shaped(m, returntype, base);
        },
    }
}

/// One transition keeps the environment as deep as the frames say.
pub proof fn law_step_keeps_shape(m: MachineView, event: Event, base: Depth)
    requires
        shaped(m, base),
    ensures
        shaped(spec_step(m, event).0, base),
{
    if m.frames.len() > 0 {
        let top = m.frames.last();
        assert(m.pop().push(top).frames =~= m.frames);
        lemma_pushed(m.pop().frames, top);
        match top {
            FrameView::Pending(_) => {
                match event {
                    Event::Scalar(b) => {
                        lemma_written_shaped(m.pop(), ValueView::Scalar(b), base);
                    },
                    Event::Resume => {},
                }
            },
            FrameView::Eval(s) => {
                if s.len() > 0 {
                    let d = s.last();
                    let rest = s.drop_last();
                    let taken = if d is Bind {
                        expression_len(rest, Seq::empty())
                    } else {
                        0
                    };
                    let keep = rest.len() - taken;
                    let resumed = m.pop().push(FrameView::Eval(rest.subrange(0, keep)));
                    lemma_pushed(m.pop().frames, FrameView::Eval(rest.subrange(0, keep)));
                    lemma_dispatch_shaped(resumed, d, true, rest.subrange(keep, rest.len() as int), base);
                }
            },
            frame => {
                lemma_resume_shaped(m.pop(), frame, base);
            },
        }
    }
}

/// A machine that starts with no frame is in shape.
pub proof fn law_fresh_machine_in_shape(env: EnvView)
    requires
        env.writers.len() >= 1,
    ensures
        shaped(
            MachineView { env, frames: Seq::empty() },
            Depth {
                layers: env.buffers.prev.len(),
                writers: env.writers.len(),
                scopes: env.scope.parents.len(),
            },
        ),
{
}

} // verus!
