//! What a partition hides stays as it is.
//!
//! Every transition of the machine works on the overlay of the operand stack.
//! The stacks below it change in two ways only: the overlay is hidden under a
//! fresh one, or the overlay is dropped and the stack below it becomes the
//! overlay again.  So the stacks that are hidden before and after a
//! transition are the same stacks, and a nested evaluation cannot touch what
//! its partition covers.
use vstd::prelude::*;
use crate::balance::spec_event;
use crate::balance::spec_run;
use crate::buffers::BuffersView;
use crate::errors::ARGUMENT;
use crate::errors::BREAK;
use crate::errors::BUFFER_INDEX;
use crate::errors::RETURN;
use crate::errors::SYNTAX;
use crate::errors::UNFILLED;
use crate::instructions::Request;
use crate::machine::EnvView;
use crate::machine::Event;
use crate::machine::FlowView;
use crate::machine::FrameView;
use crate::machine::MachineView;
use crate::machine::ReturnView;
use crate::machine::absorbs;
use crate::machine::element_at;
use crate::machine::expression_len;
use crate::machine::lemma_write_keeps_depth;
use crate::machine::mistyped;
use crate::machine::released;
use crate::machine::spec_assign;
use crate::machine::spec_call;
use crate::machine::spec_deliver;
use crate::machine::spec_dispatch;
use crate::machine::spec_finish_call;
use crate::machine::spec_next_argument;
use crate::machine::spec_next_element;
use crate::machine::spec_next_field;
use crate::machine::spec_next_index;
use crate::machine::spec_raise;
use crate::machine::spec_resume;
use crate::machine::spec_returned;
use crate::machine::spec_start;
use crate::machine::spec_step;
use crate::machine::spec_write;
use crate::model::CodeView;
use crate::model::ControllerView;
use crate::model::CreateType;
use crate::model::DirectiveView;
use crate::model::FieldsView;
use crate::model::FunctionView;
use crate::model::Path;
use crate::model::ScopeView;
use crate::model::ValueView;
use crate::scalar::Buffer;
use crate::scope::InsertMode;
use crate::scope::scope_insert;
use crate::scope::spec_insert_at;
use crate::scope::spec_resolve;

verus! {

/// Whether the stacks that are hidden in both are the same stacks.
pub open spec fn hidden_kept(a: BuffersView, b: BuffersView) -> bool {
    forall|i: int| 0 <= i < a.prev.len() && i < b.prev.len() ==> #[trigger] b.prev[i] == a.prev[i]
}

/// Whether the hidden stacks of `b` are the outermost hidden stacks of `a`.
pub open spec fn uncovered(a: BuffersView, b: BuffersView) -> bool {
    &&& b.prev.len() <= a.prev.len()
    &&& forall|i: int| 0 <= i < b.prev.len() ==> #[trigger] b.prev[i] == a.prev[i]
}

/// Whether `b` came from `a` by uncovering, or by covering `a` as it is with
/// a fresh overlay.
pub open spec fn moved(a: BuffersView, b: BuffersView) -> bool {
    uncovered(a, b) || b == a.wrap()
}

proof fn lemma_released_uncovers(env: EnvView, frame: FrameView)
    ensures
        uncovered(env.buffers, released(env, frame).buffers),
{
}

proof fn lemma_raise_uncovers(m: MachineView, code: usize)
    ensures
        uncovered(m.env.buffers, spec_raise(m, code).0.env.buffers),
    decreases m.frames.len(), 0nat,
{
    if m.frames.len() > 0 {
        let frame = m.frames.last();
        if frame is CallBody && code == RETURN {
            lemma_finish_uncovers(m.pop(), frame->returntype);
        } else {
            let rest = m.pop().with_env(released(m.env, frame));
            lemma_released_uncovers(m.env, frame);
            if !absorbs(frame, code) {
                lemma_raise_uncovers(rest, code);
            }
        }
    }
}

proof fn lemma_deliver_uncovers(m: MachineView, outcome: (EnvView, FlowView))
    ensures
        uncovered(outcome.0.buffers, spec_deliver(m, outcome).0.env.buffers),
    decreases m.frames.len(), 1nat,
{
    match outcome.1 {
        FlowView::Throw(code) => {
            lemma_raise_uncovers(m.with_env(outcome.0), code);
        },
        _ => {},
    }
}

proof fn lemma_finish_uncovers(m: MachineView, returntype: CreateType)
    ensures
        uncovered(m.env.buffers, spec_finish_call(m, returntype).0.env.buffers),
    decreases m.frames.len(), 2nat,
{
    let result = match m.env.buffers.get_return() {
        Some(v) => v,
        None => ValueView::Null,
    };
    let env = released(m.env, FrameView::CallBody { returntype });
    let caller = m.with_env(env);
    lemma_released_uncovers(m.env, FrameView::CallBody { returntype });
    if returntype == result.tag() {
        if !(result is Null) {
            lemma_write_keeps_depth(env, result);
            lemma_deliver_uncovers(caller, spec_write(env, result));
        }
    } else {
        lemma_raise_uncovers(caller, SYNTAX);
    }
}

/// Writing a value and acting on the outcome uncovers at most.
proof fn lemma_written_uncovers(m: MachineView, env: EnvView, value: ValueView)
    requires
        uncovered(m.env.buffers, env.buffers),
    ensures
        uncovered(m.env.buffers, spec_deliver(m.with_env(env), spec_write(env, value)).0.env.buffers),
{
    lemma_write_keeps_depth(env, value);
    lemma_deliver_uncovers(m.with_env(env), spec_write(env, value));
}

proof fn lemma_assign_uncovers(m: MachineView, mode: InsertMode, path: Path, value: ValueView)
    ensures
        uncovered(m.env.buffers, spec_assign(m, mode, path, value).0.env.buffers),
{
    match spec_insert_at(m.env.scope, path, value, mode) {
        Ok(_) => {},
        Err(code) => {
            lemma_raise_uncovers(m, code);
        },
    }
}

proof fn lemma_call_moves(m: MachineView, function: FunctionView, args: Seq<ValueView>)
    ensures
        moved(m.env.buffers, spec_call(m, function, args).0.env.buffers),
{
    if args.len() != function.params.len() || mistyped(function.params, args) {
        lemma_raise_uncovers(m, ARGUMENT);
    }
}

proof fn lemma_next_argument_moves(
    m: MachineView,
    function: FunctionView,
    items: Seq<CodeView>,
    remaining: nat,
    done: Seq<ValueView>,
)
    ensures
        moved(m.env.buffers, spec_next_argument(m, function, items, remaining, done).0.env.buffers),
{
    if !(0 < remaining <= items.len()) {
        lemma_call_moves(m, function, done);
    }
}

proof fn lemma_next_element_moves(m: MachineView, items: Seq<CodeView>, next: nat, done: Seq<ValueView>)
    ensures
        moved(m.env.buffers, spec_next_element(m, items, next, done).0.env.buffers),
{
    if !(next < items.len()) {
        lemma_written_uncovers(m, m.env, ValueView::Array(done));
    }
}

proof fn lemma_next_field_moves(m: MachineView, fields: FieldsView, next: nat, done: ScopeView)
    ensures
        moved(m.env.buffers, spec_next_field(m, fields, next, done).0.env.buffers),
{
    if !(next < fields.len()) {
        lemma_written_uncovers(m, m.env, ValueView::Scope(done));
    }
}

proof fn lemma_next_index_moves(m: MachineView, array: Seq<ValueView>, remaining: Seq<CodeView>)
    ensures
        moved(m.env.buffers, spec_next_index(m, array, remaining).0.env.buffers),
{
    if remaining.len() == 0 {
        lemma_raise_uncovers(m, SYNTAX);
    }
}

proof fn lemma_start_moves(m: MachineView, c: ControllerView)
    ensures
        moved(m.env.buffers, spec_start(m, c).0.env.buffers),
{
    match c {
        ControllerView::Call(name, params) => {
            match spec_resolve(m.env.scope, name) {
                Ok(ValueView::Function(function)) => {
                    lemma_next_argument_moves(m, function, params, params.len(), Seq::empty());
                },
                Ok(_) => {
                    lemma_raise_uncovers(m, SYNTAX);
                },
                Err(code) => {
                    lemma_raise_uncovers(m, code);
                },
            }
        },
        _ => {},
    }
}

proof fn lemma_dispatch_moves(m: MachineView, d: DirectiveView, discard: bool, rhs: CodeView)
    ensures
        moved(m.env.buffers, spec_dispatch(m, d, discard, rhs).0.env.buffers),
{
    match d {
        DirectiveView::ReadTop => {
            match m.env.buffers.get_buf(0) {
                Some(b) => {
                    lemma_written_uncovers(m, m.env, ValueView::Scalar(b));
                },
                None => {
                    lemma_raise_uncovers(m, BUFFER_INDEX);
                },
            }
        },
        DirectiveView::ReadAt(i) => {
            match m.env.buffers.get_buf(i as int) {
                Some(b) => {
                    lemma_written_uncovers(m, m.env, ValueView::Scalar(b));
                },
                None => {
                    lemma_raise_uncovers(m, BUFFER_INDEX);
                },
            }
        },
        DirectiveView::ReadIndexed(_, _) => {},
        DirectiveView::ReadLongIndexed(path, indices) => {
            match spec_resolve(m.env.scope, path) {
                Ok(ValueView::Array(a)) => {
                    lemma_next_index_moves(m, a, indices);
                },
                Ok(_) => {
                    lemma_raise_uncovers(m, SYNTAX);
                },
                Err(code) => {
                    lemma_raise_uncovers(m, code);
                },
            }
        },
        DirectiveView::ReadNamed(path) => {
            match spec_resolve(m.env.scope, path) {
                Ok(v) => {
                    lemma_written_uncovers(m, m.env, v);
                },
                Err(code) => {
                    lemma_raise_uncovers(m, code);
                },
            }
        },
        DirectiveView::WriteInstruction(_) => {},
        DirectiveView::WriteLiteral(b) => {
            lemma_written_uncovers(m, m.env, ValueView::Scalar(b));
        },
        DirectiveView::WriteArray(items) => {
            lemma_next_element_moves(m, items, 0, Seq::empty());
        },
        DirectiveView::WriteFunction(f) => {
            lemma_written_uncovers(m, m.env, ValueView::Function(f));
        },
        DirectiveView::WriteScope(fields) => {
            lemma_next_field_moves(m, fields, 0, Seq::empty());
        },
        DirectiveView::Bind(_, _, _) => {},
        DirectiveView::Control(c) => {
            lemma_start_moves(m, c);
        },
        DirectiveView::Break => {
            lemma_raise_uncovers(m, BREAK);
        },
        DirectiveView::Return => {
            lemma_raise_uncovers(m, RETURN);
        },
        DirectiveView::RemoveTop => {},
    }
}

proof fn lemma_returned_moves(m: MachineView, then: ReturnView, value: Option<ValueView>)
    ensures
        moved(m.env.buffers, spec_returned(m, then, value).0.env.buffers),
{
    match then {
        ReturnView::Index { path, discard } => {
            match value {
                Some(ValueView::Scalar(b)) => {
                    match spec_resolve(m.env.scope, path) {
                        Ok(ValueView::Array(a)) => {
                            match element_at(a, b) {
                                Some(v) => {
                                    let env = if discard {
                                        m.env.with_buffers(m.env.buffers.pop())
                                    } else {
                                        m.env
                                    };
                                    lemma_written_uncovers(m, env, v);
                                },
                                None => {
                                    lemma_raise_uncovers(m, SYNTAX);
                                },
                            }
                        },
                        Ok(_) => {
                            lemma_raise_uncovers(m, SYNTAX);
                        },
                        Err(code) => {
                            lemma_raise_uncovers(m, code);
                        },
                    }
                },
                _ => {
                    lemma_raise_uncovers(m, SYNTAX);
                },
            }
        },
        ReturnView::LongIndex { array, remaining } => {
            match value {
                Some(ValueView::Scalar(b)) => {
                    match element_at(array, b) {
                        Some(v) => {
                            if remaining.len() == 0 {
                                lemma_written_uncovers(m, m.env, v);
                            } else {
                                match v {
                                    ValueView::Array(inner) => {
                                        lemma_next_index_moves(m, inner, remaining);
                                    },
                                    _ => {
                                        lemma_raise_uncovers(m, SYNTAX);
                                    },
                                }
                            }
                        },
                        None => {
                            lemma_raise_uncovers(m, SYNTAX);
                        },
                    }
                },
                _ => {
                    lemma_raise_uncovers(m, SYNTAX);
                },
            }
        },
        ReturnView::Elements { items, next, done } => {
            match value {
                Some(v) => {
                    lemma_next_element_moves(m, items, next, done.push(v));
                },
                None => {
                    lemma_raise_uncovers(m, SYNTAX);
                },
            }
        },
        ReturnView::Fields { fields, next, done } => {
            match value {
                Some(v) => {
                    if 0 < next <= fields.len() && fields[next - 1].1 == v.tag() {
                        lemma_next_field_moves(
                            m,
                            fields,
                            next,
                            scope_insert(done, fields[next - 1].0, v),
                        );
                    } else {
                        lemma_raise_uncovers(m, SYNTAX);
                    }
                },
                None => {
                    lemma_raise_uncovers(m, SYNTAX);
                },
            }
        },
        ReturnView::BindValue { flavor, path } => {
            match value {
                Some(v) => {
                    if flavor == v.tag() {
                        lemma_assign_uncovers(m, InsertMode::Normal, path, v);
                    } else {
                        lemma_raise_uncovers(m, SYNTAX);
                    }
                },
                None => {
                    lemma_raise_uncovers(m, SYNTAX);
                },
            }
        },
        ReturnView::Arguments { function, items, remaining, done } => {
            match value {
                Some(v) => {
                    lemma_next_argument_moves(m, function, items, remaining, done.push(v));
                },
                None => {
                    lemma_raise_uncovers(m, SYNTAX);
                },
            }
        },
    }
}

proof fn lemma_resume_keeps_hidden(m: MachineView, frame: FrameView)
    ensures
        hidden_kept(m.env.buffers, spec_resume(m, frame).0.env.buffers),
{
    match frame {
        FrameView::Return(then) => {
            let inner = m.with_env(m.env.exit());
            lemma_returned_moves(inner, then, m.env.buffers.get_return());
            let after = spec_returned(inner, then, m.env.buffers.get_return()).0.env.buffers;
            if after == inner.env.buffers.wrap() && m.env.buffers.prev.len() > 0 {
                assert(after.prev =~= m.env.buffers.prev);
            }
        },
        FrameView::Bind { mode, flavor, path } => {
            if flavor is ARR {
                match m.env.buffers.get_arr(0) {
                    Some(a) => {
                        lemma_assign_uncovers(m, mode, path, ValueView::Array(a));
                    },
                    None => {
                        lemma_raise_uncovers(m, SYNTAX);
                    },
                }
            } else {
                match m.env.buffers.get_buf(0) {
                    Some(b) => {
                        lemma_assign_uncovers(m, mode, path, ValueView::Scalar(b));
                    },
                    None => {
                        lemma_raise_uncovers(m, SYNTAX);
                    },
                }
            }
        },
        FrameView::Branch { .. } => {
            lemma_raise_uncovers(m, UNFILLED);
        },
        FrameView::ForStart { .. } => {
            lemma_raise_uncovers(m, SYNTAX);
        },
        FrameView::ForInStart { .. } => {
            lemma_raise_uncovers(m, SYNTAX);
        },
        FrameView::WhileTest { .. } => {
            lemma_raise_uncovers(m, SYNTAX);
        },
        FrameView::CallBody { returntype } => {
            lemma_finish_uncovers(m, returntype);
        },
        _ => {},
    }
}

/// One transition leaves alone every operand stack that is hidden before it
/// and after it.
pub proof fn law_step_keeps_hidden_stacks(m: MachineView, event: Event)
    ensures
        hidden_kept(m.env.buffers, spec_step(m, event).0.env.buffers),
{
    if m.frames.len() > 0 {
        match m.frames.last() {
            FrameView::Pending(_) => {
                match event {
                    Event::Scalar(b) => {
                        lemma_written_uncovers(m.pop(), m.env, ValueView::Scalar(b));
                    },
                    Event::Resume => {},
                }
            },
            FrameView::Eval(s) => {
                if s.len() > 0 {
                    let d = s.last();
                    let rest = s.drop_last();
                    let taken = if d is Bind {
                        expression_len(rest, Seq::empty())
                    } else {
                        0
                    };
                    let keep = rest.len() - taken;
                    lemma_dispatch_moves(
                        m.pop().push(FrameView::Eval(rest.subrange(0, keep))),
                        d,
                        true,
                        rest.subrange(keep, rest.len() as int),
                    );
                }
            },
            frame => {
                lemma_resume_keeps_hidden(m.pop(), frame);
            },
        }
    }
}

/// A partition's parent is unchanged while the partition exists: through any
/// number of transitions, whatever the caller answers, the stacks that stay
/// hidden all the while are the same at the end as at the start.
pub proof fn law_partition_parent_unchanged(
    m: MachineView,
    host: spec_fn(Request) -> Buffer,
    steps: nat,
    depth: nat,
)
    requires
        forall|j: nat| j <= steps ==> depth <= (#[trigger] spec_run(m, host, j)).env.buffers.prev.len(),
    ensures
        forall|i: int|
            0 <= i < depth ==> spec_run(m, host, steps).env.buffers.prev[i] == m.env.buffers.prev[i],
    decreases steps,
{
    if steps > 0 {
        let next = spec_step(m, spec_event(m, host)).0;
        law_step_keeps_hidden_stacks(m, spec_event(m, host));
        assert(spec_run(m, host, 0) == m);
        assert(spec_run(m, host, 1) == spec_run(next, host, 0));
        assert forall|j: nat| j <= (steps - 1) as nat implies depth <= (#[trigger] spec_run(
            next,
            host,
            j,
        )).env.buffers.prev.len() by {
            assert(spec_run(m, host, j + 1) == spec_run(next, host, j));
        }
        law_partition_parent_unchanged(next, host, (steps - 1) as nat, depth);
        let end = spec_run(m, host, steps);
        assert(end == spec_run(next, host, (steps - 1) as nat));
        assert(depth <= spec_run(m, host, 0).env.buffers.prev.len());
        assert(depth <= spec_run(m, host, 1).env.buffers.prev.len());
        assert forall|i: int| 0 <= i < depth implies end.env.buffers.prev[i] == m.env.buffers.prev[i] by {
            assert(next.env.buffers.prev[i] == m.env.buffers.prev[i]);
        }
    } else {
        assert(spec_run(m, host, 0) == m);
    }
}

} // verus!
