//! The control constructs.
use vstd::prelude::*;
use crate::model::Controller;
use crate::model::ControllerView;
use crate::model::For;
use crate::model::ForIn;
use crate::model::If;
use crate::model::IfElse;
use crate::model::MutableBuffer;
use crate::model::Scoped;
use crate::model::While;
use crate::model::codes_view;
use crate::model::name_view;

verus! {

impl If {
    /// `if`: the body runs when the condition leaves a scalar other than zero
    /// at the front of the operand stack.
    pub fn new(condition: MutableBuffer, mutbuffer: MutableBuffer) -> (out: If)
        ensures
            Controller::If(out)@ == ControllerView::If(condition@, mutbuffer@),
    {
        If { condition, mutbuffer }
    }
}

impl IfElse {
    /// `if` with `else`.
    pub fn new(condition: MutableBuffer, ifmutbuffer: MutableBuffer, elsemutbuffer: MutableBuffer) -> (out:
        IfElse)
        ensures
            Controller::IfElse(out)@ == ControllerView::IfElse(condition@, ifmutbuffer@, elsemutbuffer@),
    {
        IfElse { condition, ifmutbuffer, elsemutbuffer }
    }
}

impl For {
    /// `for`: the body runs as often as the whole part of the scalar that
    /// `times` leaves says, in one scope frame of the loop's own; the loop
    /// variable, if named, counts from zero.
    pub fn new(times: MutableBuffer, identifier: Option<String>, mutbuffer: MutableBuffer) -> (out: For)
        ensures
            Controller::For(out)@ == ControllerView::For(times@, name_view(identifier), mutbuffer@),
    {
        For { times, identifier, mutbuffer }
    }
}

impl ForIn {
    /// `forin`: the body runs once for each element of the array that `value`
    /// leaves, in one scope frame of the loop's own.
    pub fn new(value: MutableBuffer, identifier: Option<String>, mutbuffer: MutableBuffer) -> (out: ForIn)
        ensures
            Controller::ForIn(out)@ == ControllerView::ForIn(value@, name_view(identifier), mutbuffer@),
    {
        ForIn { value, identifier, mutbuffer }
    }
}

impl While {
    /// `while`: condition and body run in turn while the condition leaves a
    /// scalar other than zero.
    pub fn new(condition: MutableBuffer, mutbuffer: MutableBuffer) -> (out: While)
        ensures
            Controller::While(out)@ == ControllerView::While(condition@, mutbuffer@),
    {
        While { condition, mutbuffer }
    }
}

impl Scoped {
    /// A block; `mutbuffers` holds its expressions, the first one last.
    pub fn new(mutbuffers: Vec<MutableBuffer>) -> (out: Scoped)
        ensures
            Controller::Scoped(out)@ == ControllerView::Scoped(codes_view(mutbuffers@)),
    {
        Scoped { mutbuffers }
    }
}

} // verus!
