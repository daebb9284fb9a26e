//! Calls.
use vstd::prelude::*;
use crate::model::Controller;
use crate::model::ControllerView;
use crate::model::FunctionCall;
use crate::model::Identifier;
use crate::model::MutableBuffer;
use crate::model::codes_view;
use crate::model::path_view;

verus! {

impl FunctionCall {
    /// A call of the function that `name` resolves to; `params` holds the
    /// argument expressions, the first argument last.
    pub fn new(name: Identifier, params: Vec<MutableBuffer>) -> (out: FunctionCall)
        ensures
            Controller::Call(out)@ == ControllerView::Call(path_view(name@), codes_view(params@)),
    {
        FunctionCall { params, name }
    }
}

} // verus!
