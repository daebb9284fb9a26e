//! The evaluator: the environment, the frame stack and the transitions that
//! the model in `machine` describes.
//!
//! Several functions take a `lossy` flag.  It grants permission to drop
//! residue from the operand stack between statements; this evaluator keeps
//! every value, so the flag changes nothing.
use std::collections::VecDeque;
use vstd::prelude::*;
use crate::buffers::PartitionedBuffers;
use crate::builder::read_mutable_buffer;
use crate::builder::read_token;
use crate::builder::spec_read_mutable_buffer;
use crate::builder::spec_read_token;
use crate::errors::ARGUMENT;
use crate::errors::BREAK;
use crate::errors::BUFFER_INDEX;
use crate::errors::CreateError;
use crate::errors::CreateResult;
use crate::errors::INCOMPATIBLE;
use crate::errors::RETURN;
use crate::errors::SYNTAX;
use crate::errors::UNFILLED;
use crate::instructions::Instruction;
use crate::instructions::Request;
use crate::machine::ActionView;
use crate::machine::EnvView;
use crate::machine::Event;
use crate::machine::FlowView;
use crate::machine::FrameView;
use crate::machine::MachineView;
use crate::machine::ReturnView;
use crate::machine::absorbs;
use crate::machine::capacity_after;
use crate::machine::expression_len;
use crate::machine::released;
use crate::machine::seeded;
use crate::machine::settle;
use crate::machine::spec_assign;
use crate::machine::spec_bind;
use crate::machine::spec_call;
use crate::machine::spec_deliver;
use crate::machine::spec_dispatch;
use crate::machine::spec_finish_call;
use crate::machine::spec_next_argument;
use crate::machine::spec_next_element;
use crate::machine::spec_next_field;
use crate::machine::spec_next_index;
use crate::machine::spec_raise;
use crate::machine::spec_resume;
use crate::machine::spec_return_count;
use crate::machine::spec_returned;
use crate::machine::spec_run_directive_tokenless;
use crate::machine::spec_start;
use crate::machine::spec_step;
use crate::machine::spec_write;
use crate::machine::with_loop_variable;
use crate::model::CodeView;
use crate::model::Controller;
use crate::model::CreateAny;
use crate::model::CreateDirective;
use crate::model::CreateType;
use crate::model::DirectiveView;
use crate::model::Function;
use crate::model::Identifier;
use crate::model::MutableBuffer;
use crate::model::PrimitiveScope;
use crate::model::ScopePrototype;
use crate::model::clone_identifier;
use crate::model::codes_view;
use crate::model::fields_view;
use crate::model::name_view;
use crate::model::path_view;
use crate::model::share_all;
use crate::model::values_view;
use crate::scalar::from_count;
use crate::scalar::to_count;
use crate::scalar::to_index;
use crate::scalar::truthy;
use crate::scope::InsertMode;
use crate::scope::Scope;
use crate::scope::insert_through;
use crate::scope::option_view;
use crate::scope::resolve_identifier;
use crate::scope::resolve_identifier_immut;
use crate::tokenizer::Token;

verus! {

/// One writer stack; the front takes the next operand.
pub type Writers = VecDeque<Instruction>;

/// What every directive is evaluated against.
pub struct Environment {
    pub buffers: PartitionedBuffers,
    pub writers: Vec<Writers>,
    pub scope: Scope,
}

/// How an operation on the environment ended.
pub enum Flow {
    Next,
    Ask(Request),
    Throw(CreateError),
}

/// What the caller has to do after a transition.
pub enum Action {
    /// Nothing; make the next transition.
    Continue,
    /// Nothing is left to evaluate.
    Idle,
    /// Compute the request and hand the result to the next transition.
    Ask(Request),
    /// Evaluation failed and nothing absorbed the error.
    Failed(CreateError),
}

/// What becomes of the value that an evaluation in a partition returns; see
/// `ReturnView` for the cases.
#[allow(inconsistent_fields)]
pub enum ReturnUse {
    Index { path: Identifier, discard: bool },
    LongIndex { array: Vec<CreateAny>, remaining: Vec<MutableBuffer> },
    Elements { items: Vec<MutableBuffer>, next: usize, done: Vec<CreateAny> },
    Fields { fields: Vec<(String, CreateType, MutableBuffer)>, next: usize, done: PrimitiveScope },
    BindValue { flavor: CreateType, path: Identifier },
    Arguments { function: Function, items: Vec<MutableBuffer>, remaining: usize, done: Vec<CreateAny> },
}

/// A frame of the machine; see `FrameView` for the cases.  An expression
/// under evaluation is a window into shared program text: the directives from
/// `lo` up to `hi`, the one before `hi` running next.
#[allow(inconsistent_fields)]
pub enum Frame {
    Eval { code: MutableBuffer, lo: usize, hi: usize },
    Pending(Request),
    Return(ReturnUse),
    Bind { mode: InsertMode, flavor: CreateType, path: Identifier },
    Branch { then: MutableBuffer, otherwise: Option<MutableBuffer> },
    ForStart { name: Option<String>, body: MutableBuffer },
    ForLoop { next: u32, end: u32, name: Option<String>, body: MutableBuffer },
    ForInStart { name: Option<String>, body: MutableBuffer },
    ForInLoop { items: Vec<CreateAny>, next: usize, name: Option<String>, body: MutableBuffer },
    WhileTest { condition: MutableBuffer, body: MutableBuffer },
    WhileBody { condition: MutableBuffer, body: MutableBuffer },
    Block { remaining: Vec<MutableBuffer> },
    CallBody { returntype: CreateType },
}

/// The evaluator's state.
pub struct Machine {
    pub env: Environment,
    pub frames: Vec<Frame>,
}

/// The models of the writer stacks.
pub open spec fn writers_view(s: Seq<Writers>) -> Seq<Seq<Instruction>> {
    Seq::new(s.len(), |i: int| s[i]@)
}

/// The directives of `code` from `lo` up to `hi`; none where the bounds do not
/// fit.
pub open spec fn window(code: CodeView, lo: usize, hi: usize) -> CodeView {
    if lo <= hi <= code.len() {
        code.subrange(lo as int, hi as int)
    } else {
        Seq::empty()
    }
}

/// The models of the frames.
pub open spec fn stack_view(s: Seq<Frame>) -> Seq<FrameView> {
    Seq::new(s.len(), |i: int| s[i]@)
}

impl View for Environment {
    type V = EnvView;

    open spec fn view(&self) -> EnvView {
        EnvView { buffers: self.buffers@, writers: writers_view(self.writers@), scope: self.scope@ }
    }
}

impl View for Flow {
    type V = FlowView;

    open spec fn view(&self) -> FlowView {
        match self {
            Flow::Next => FlowView::Next,
            Flow::Ask(request) => FlowView::Ask(*request),
            Flow::Throw(e) => FlowView::Throw(e.code),
        }
    }
}

impl View for Action {
    type V = ActionView;

    open spec fn view(&self) -> ActionView {
        match self {
            Action::Continue => ActionView::Continue,
            Action::Idle => ActionView::Idle,
            Action::Ask(request) => ActionView::Ask(*request),
            Action::Failed(e) => ActionView::Failed(e.code),
        }
    }
}

impl View for ReturnUse {
    type V = ReturnView;

    open spec fn view(&self) -> ReturnView {
        match self {
            ReturnUse::Index { path, discard } => ReturnView::Index {
                path: path_view(path@),
                discard: *discard,
            },
            ReturnUse::LongIndex { array, remaining } => ReturnView::LongIndex {
                array: values_view(array@),
                remaining: codes_view(remaining@),
            },
            ReturnUse::Elements { items, next, done } => ReturnView::Elements {
                items: codes_view(items@),
                next: *next as nat,
                done: values_view(done@),
            },
            ReturnUse::Fields { fields, next, done } => ReturnView::Fields {
                fields: fields_view(fields@),
                next: *next as nat,
                done: done@,
            },
            ReturnUse::BindValue { flavor, path } => ReturnView::BindValue {
                flavor: *flavor,
                path: path_view(path@),
            },
            ReturnUse::Arguments { function, items, remaining, done } => ReturnView::Arguments {
                function: function@,
                items: codes_view(items@),
                remaining: *remaining as nat,
                done: values_view(done@),
            },
        }
    }
}

impl View for Frame {
    type V = FrameView;

    open spec fn view(&self) -> FrameView {
        match self {
            Frame::Eval { code, lo, hi } => FrameView::Eval(window(code@, *lo, *hi)),
            Frame::Pending(request) => FrameView::Pending(*request),
            Frame::Return(then) => FrameView::Return(then@),
            Frame::Bind { mode, flavor, path } => FrameView::Bind {
                mode: *mode,
                flavor: *flavor,
                path: path_view(path@),
            },
            Frame::Branch { then, otherwise } => FrameView::Branch {
                then: then@,
                otherwise: match otherwise {
                    Some(e) => Some(e@),
                    None => None,
                },
            },
            Frame::ForStart { name, body } => FrameView::ForStart { name: name_view(*name), body: body@ },
            Frame::ForLoop { next, end, name, body } => FrameView::ForLoop {
                next: *next,
                end: *end,
                name: name_view(*name),
                body: body@,
            },
            Frame::ForInStart { name, body } => FrameView::ForInStart {
                name: name_view(*name),
                body: body@,
            },
            Frame::ForInLoop { items, next, name, body } => FrameView::ForInLoop {
                items: values_view(items@),
                next: *next as nat,
                name: name_view(*name),
                body: body@,
            },
            Frame::WhileTest { condition, body } => FrameView::WhileTest {
                condition: condition@,
                body: body@,
            },
            Frame::WhileBody { condition, body } => FrameView::WhileBody {
                condition: condition@,
                body: body@,
            },
            Frame::Block { remaining } => FrameView::Block { remaining: codes_view(remaining@) },
            Frame::CallBody { returntype } => FrameView::CallBody { returntype: *returntype },
        }
    }
}

impl View for Machine {
    type V = MachineView;

    open spec fn view(&self) -> MachineView {
        MachineView { env: self.env@, frames: stack_view(self.frames@) }
    }
}

impl Environment {
    /// An environment with one empty operand stack, one empty writer stack and
    /// an empty root scope.
    pub fn new() -> (out: Environment)
        ensures
            out@ == EnvView::initial(),
    {
        let mut writers: Vec<Writers> = Vec::new();
        writers.push(VecDeque::new());
        let out = Environment { buffers: PartitionedBuffers::empty(), writers, scope: Scope::root() };
        proof {
            assert(out@.writers =~= seq![Seq::<Instruction>::empty()]);
        }
        out
    }

    /// Opens a partition with a writer stack of its own.
    pub fn enter(&mut self)
        ensures
            final(self)@ == old(self)@.enter(),
    {
        self.buffers.enter();
        self.writers.push(VecDeque::new());
        proof {
            assert(self@.writers =~= old(self)@.enter().writers);
        }
    }

    /// Gives up the innermost partition and writer stack.
    pub fn exit(&mut self)
        ensures
            final(self)@ == old(self)@.exit(),
    {
        self.buffers.leave();
        self.writers.pop();
        proof {
            assert(self@.writers =~= old(self)@.exit().writers);
        }
    }

    /// Pushes a writer; it takes the next operand.
    pub fn push_writer(&mut self, instruction: Instruction)
        ensures
            final(self)@ == old(self)@.push_writer(instruction),
    {
        match self.writers.pop() {
            Some(current) => {
                let mut stack = current;
                stack.push_front(instruction);
                self.writers.push(stack);
                proof {
                    assert(self@.writers =~= old(self)@.push_writer(instruction).writers);
                }
            },
            None => {
                let mut stack: Writers = VecDeque::new();
                stack.push_front(instruction);
                self.writers.push(stack);
                proof {
                    assert(stack@ =~= seq![instruction]);
                    assert(self@.writers =~= old(self)@.push_writer(instruction).writers);
                }
            },
        }
    }

    /// Gives up what belongs to a frame that is dropped.
    pub fn release(&mut self, frame: &Frame)
        ensures
            final(self)@ == released(old(self)@, frame@),
    {
        match frame {
            Frame::Return(_) => {
                self.exit();
            },
            Frame::ForLoop { .. } => {
                self.scope.pop_frame();
            },
            Frame::ForInLoop { .. } => {
                self.scope.pop_frame();
            },
            Frame::Block { .. } => {
                self.scope.pop_frame();
            },
            Frame::CallBody { .. } => {
                self.exit();
                self.scope.pop_frame();
            },
            _ => {},
        }
    }
}

/// A copy of an optional name.
pub fn clone_name(name: &Option<String>) -> (out: Option<String>)
    ensures
        name_view(out) == name_view(*name),
{
    match name {
        Some(n) => Some(n.clone()),
        None => None,
    }
}

/// The capacity stack as the model sees it.
pub open spec fn capacities(s: Seq<i64>) -> Seq<int> {
    Seq::new(s.len(), |i: int| s[i] as int)
}

/// Whether every capacity is small enough to count down without overflow.
pub open spec fn capacities_bounded(s: Seq<i64>) -> bool {
    forall|i: int| 0 <= i < s.len() ==> -0x8000_0000 <= #[trigger] s[i] <= 0x8000_0000
}

fn settle_capacity(stack: &mut Vec<i64>, count: i64) -> (complete: bool)
    requires
        0 <= count <= 1,
        capacities_bounded(old(stack)@),
    ensures
        (capacities(final(stack)@), complete) == settle(capacities(old(stack)@), count as int),
        capacities_bounded(final(stack)@),
{
    loop
        invariant
            0 <= count <= 1,
            capacities_bounded(stack@),
            settle(capacities(old(stack)@), count as int) == settle(capacities(stack@), count as int),
        decreases stack@.len(),
    {
        let ghost before = stack@;
        match stack.pop() {
            None => {
                return true;
            },
            Some(top) => {
                let left = top - count;
                proof {
                    assert(capacities(before).last() == top);
                    assert(capacities(before).drop_last() =~= capacities(stack@));
                }
                if left > 0 {
                    stack.push(left);
                    proof {
                        assert(capacities(stack@) =~= capacities(before).drop_last().push(left as int));
                    }
                    return false;
                }
            },
        }
    }
}

impl Controller {
    /// The number of values the construct leaves for the expression around
    /// it: one for a call, none for the others.
    pub fn return_count(&self) -> (out: usize)
        ensures
            out == spec_return_count(self@),
    {
        match self {
            Controller::Call(_) => 1,
            _ => 0,
        }
    }
}

/// How a binder chooses its frame and what it binds.
pub fn binder(d: &CreateDirective) -> (out: Option<(InsertMode, CreateType, &Identifier)>)
    ensures
        out is Some == d@ is Bind,
        out matches Some((mode, flavor, path)) ==> d@ == DirectiveView::Bind(mode, flavor, path_view(path@)),
{
    match d {
        CreateDirective::WRITE_NBF(n) => Some((InsertMode::Normal, CreateType::BUF, n)),
        CreateDirective::WRITE_NAR(n) => Some((InsertMode::Normal, CreateType::ARR, n)),
        CreateDirective::WRITE_NSC(n) => Some((InsertMode::Normal, CreateType::SCP, n)),
        CreateDirective::WRITE_NFN(n) => Some((InsertMode::Normal, CreateType::FUN, n)),
        CreateDirective::WRITE_GNB(n) => Some((InsertMode::Global, CreateType::BUF, n)),
        CreateDirective::WRITE_GNA(n) => Some((InsertMode::Global, CreateType::ARR, n)),
        CreateDirective::WRITE_LNB(n) => Some((InsertMode::Local, CreateType::BUF, n)),
        CreateDirective::WRITE_LNA(n) => Some((InsertMode::Local, CreateType::ARR, n)),
        _ => None,
    }
}

/// Applies the capacity rule to one directive; the result says whether the
/// expression ends with it.
pub fn capacity_step(stack: &mut Vec<i64>, d: &CreateDirective) -> (stop: bool)
    requires
        capacities_bounded(old(stack)@),
    ensures
        (capacities(final(stack)@), stop) == capacity_after(capacities(old(stack)@), d@),
        capacities_bounded(final(stack)@),
{
    match d {
        CreateDirective::READ_BUF()
        | CreateDirective::READ_IBF(_)
        | CreateDirective::READ_IAR(_, _)
        | CreateDirective::READ_LIA(_, _)
        | CreateDirective::READ_NBF(_)
        | CreateDirective::WRITE_BUF(_)
        | CreateDirective::WRITE_ARR(_)
        | CreateDirective::WRITE_SCP(_) => {
            let complete = settle_capacity(stack, 1);
            complete || stack.len() == 0
        },
        CreateDirective::CONTROL(c) => {
            let complete = settle_capacity(stack, c.return_count() as i64);
            complete || stack.len() == 0
        },
        CreateDirective::WRITE_INS(i) => {
            let ghost before = stack@;
            stack.push(i.capacity() as i64);
            proof {
                assert(capacities(stack@) =~= capacities(before).push(i.spec_capacity()));
            }
            false
        },
        _ => {
            if binder(d).is_some() {
                let ghost before = stack@;
                stack.push(1);
                proof {
                    assert(capacities(stack@) =~= capacities(before).push(1));
                }
                false
            } else {
                stack.len() == 0
            }
        },
    }
}

/// The number of directives, counted back from `hi`, that make up the next
/// expression of `code` between `lo` and `hi`.
pub fn read_mutable_buffer_tokenless(code: &MutableBuffer, lo: usize, hi: usize) -> (out: usize)
    ensures
        out == expression_len(window(code@, lo, hi), Seq::empty()),
        lo <= hi <= code@.len() ==> out <= hi - lo,
        !(lo <= hi <= code@.len()) ==> out == 0,
{
    if !(lo <= hi && hi <= code.len()) {
        return 0;
    }
    let mut stack: Vec<i64> = Vec::new();
    let mut k: usize = hi;
    let mut taken: usize = 0;
    proof {
        assert(capacities(stack@) =~= Seq::empty());
    }
    while k > lo
        invariant
            lo <= k <= hi <= code@.len(),
            taken == hi - k,
            capacities_bounded(stack@),
            expression_len(window(code@, lo, hi), Seq::empty()) == taken + expression_len(
                window(code@, lo, k),
                capacities(stack@),
            ),
        decreases k,
    {
        proof {
            let s = window(code@, lo, k);
            assert(s.last() == code@[k - 1]);
            assert(s.drop_last() =~= window(code@, lo, (k - 1) as usize));
        }
        let stop = capacity_step(&mut stack, code.get(k - 1));
        k = k - 1;
        taken = taken + 1;
        if stop {
            return taken;
        }
    }
    taken
}

/// A copy of the field declarations of a scope literal.
pub fn clone_fields(fields: &Vec<(String, CreateType, MutableBuffer)>) -> (out: Vec<
    (String, CreateType, MutableBuffer),
>)
    ensures
        fields_view(out@) == fields_view(fields@),
{
    let mut out: Vec<(String, CreateType, MutableBuffer)> = Vec::new();
    let mut i: usize = 0;
    while i < fields.len()
        invariant
            i <= fields.len(),
            out@.len() == i,
            forall|j: int|
                0 <= j < i ==> (#[trigger] out@[j]).0@ == fields@[j].0@ && out@[j].1 == fields@[j].1 && out@[j].2
                    == fields@[j].2,
        decreases fields.len() - i,
    {
        out.push((fields[i].0.clone(), fields[i].1, fields[i].2.share()));
        i = i + 1;
    }
    proof {
        assert(fields_view(out@) =~= fields_view(fields@));
    }
    out
}

/// The flow primitive: lets a value flow through the pending writers onto the
/// operand stack.  `lossy` permits dropping residue; nothing is dropped here.
pub fn write(environment: &mut Environment, val: CreateAny, lossy: bool) -> (out: Flow)
    ensures
        (final(environment)@, out@) == spec_write(old(environment)@, val@),
{
    let mut value = val;
    loop
        invariant
            spec_write(old(environment)@, val@) == spec_write(environment@, value@),
        decreases environment@.current_writers().len(),
    {
        let depth = environment.writers.len();
        if depth == 0 || environment.writers[depth - 1].len() == 0 {
            environment.buffers.push(value);
            return Flow::Next;
        }
        let b = match value {
            CreateAny::BUF(b) => b,
            _ => {
                return Flow::Throw(CreateError::new(INCOMPATIBLE, "Tried to write a value that is no buffer to an instruction."));
            },
        };
        let ghost before = environment@;
        let ghost writers = before.current_writers();
        let mut stack = match environment.writers.pop() {
            Some(s) => s,
            None => VecDeque::new(),
        };
        let mut fed = match stack.pop_front() {
            Some(top) => top,
            None => {
                return Flow::Next;
            },
        };
        if fed.is_full() {
            stack.push_front(fed);
            environment.writers.push(stack);
            proof {
                assert(stack@ =~= writers);
                assert(environment@.writers =~= before.writers);
            }
            return Flow::Throw(CreateError::new(SYNTAX, "Tried to add a value to a filled instruction"));
        }
        fed.write_buffer(b);
        if fed.is_full() {
            environment.writers.push(stack);
            proof {
                assert(environment@.writers =~= before.with_current_writers(
                    writers.subrange(1, writers.len() as int),
                ).writers);
            }
            match fed.evaluate() {
                Ok(request) => match request.decide() {
                    Some(r) => {
                        value = CreateAny::BUF(r);
                    },
                    None => {
                        return Flow::Ask(request);
                    },
                },
                Err(e) => {
                    return Flow::Throw(e);
                },
            }
        } else {
            stack.push_front(fed);
            environment.writers.push(stack);
            proof {
                assert(stack@ =~= writers.update(0, fed));
                assert(environment@.writers =~= before.with_current_writers(writers.update(0, fed)).writers);
            }
            return Flow::Next;
        }
    }
}

impl Frame {
    /// Whether the frame stops an error with this code.
    pub fn absorbs(&self, code: usize) -> (out: bool)
        ensures
            out == absorbs(self@, code),
    {
        match self {
            Frame::ForLoop { .. } => code == BREAK,
            Frame::ForInLoop { .. } => code == BREAK,
            Frame::WhileTest { .. } => code == BREAK,
            Frame::WhileBody { .. } => code == BREAK,
            Frame::CallBody { .. } => code == RETURN,
            _ => false,
        }
    }
}

impl Machine {
    /// A machine with a fresh environment and nothing to evaluate.
    pub fn new() -> (out: Machine)
        ensures
            out@.frames == Seq::<FrameView>::empty(),
            out@.env == EnvView::initial(),
    {
        let out = Machine { env: Environment::new(), frames: Vec::new() };
        proof {
            assert(out@.frames =~= Seq::empty());
        }
        out
    }

    /// Whether nothing is left to evaluate.
    pub fn is_idle(&self) -> (out: bool)
        ensures
            out == (self@.frames.len() == 0),
    {
        self.frames.len() == 0
    }

    fn push_frame(&mut self, frame: Frame)
        ensures
            final(self)@ == old(self)@.push(frame@),
    {
        self.frames.push(frame);
        proof {
            assert(self@.frames =~= old(self)@.push(frame@).frames);
        }
    }

    fn pop_frame(&mut self) -> (out: Option<Frame>)
        ensures
            final(self)@ == old(self)@.pop(),
            out is Some == (old(self)@.frames.len() > 0),
            out matches Some(frame) ==> frame@ == old(self)@.frames.last(),
            final(self).frames@.len() == if out is Some {
                old(self).frames@.len() - 1
            } else {
                0
            },
    {
        let out = self.frames.pop();
        proof {
            assert(self@.frames =~= old(self)@.pop().frames);
        }
        out
    }

    /// Starts the evaluation of `expression` on top of `frame`.
    fn begin(&mut self, frame: Frame, expression: &MutableBuffer)
        ensures
            final(self)@ == old(self)@.begin(frame@, expression@),
    {
        self.push_frame(frame);
        let hi = expression.len();
        proof {
            assert(window(expression@, 0, hi) =~= expression@);
        }
        self.push_frame(Frame::Eval { code: expression.share(), lo: 0, hi });
    }

    /// Starts the evaluation of `expression` in a fresh partition.
    fn enter(&mut self, then: ReturnUse, expression: &MutableBuffer)
        ensures
            final(self)@ == old(self)@.enter(then@, expression@),
    {
        self.env.enter();
        self.begin(Frame::Return(then), expression);
    }

    /// Raises an error: drops frames until one absorbs it.
    pub fn raise(&mut self, error: CreateError) -> (out: Action)
        ensures
            (final(self)@, out@) == spec_raise(old(self)@, error.code),
        decreases old(self).frames@.len(), 0nat,
    {
        match self.pop_frame() {
            None => Action::Failed(error),
            Some(frame) => {
                match frame {
                    Frame::CallBody { returntype } if error.code == RETURN => self.finish_call(returntype),
                    _ => {
                        self.env.release(&frame);
                        if frame.absorbs(error.code) {
                            Action::Continue
                        } else {
                            self.raise(error)
                        }
                    },
                }
            },
        }
    }

    /// Acts on the outcome of an operation on the environment.
    pub fn deliver(&mut self, flow: Flow) -> (out: Action)
        ensures
            (final(self)@, out@) == spec_deliver(old(self)@, (old(self)@.env, flow@)),
        decreases old(self).frames@.len(), 1nat,
    {
        match flow {
            Flow::Next => Action::Continue,
            Flow::Ask(request) => {
                self.push_frame(Frame::Pending(request));
                Action::Ask(request)
            },
            Flow::Throw(e) => self.raise(e),
        }
    }

    /// Ends a call whose body frame has been dropped.
    pub fn finish_call(&mut self, returntype: CreateType) -> (out: Action)
        ensures
            (final(self)@, out@) == spec_finish_call(old(self)@, returntype),
        decreases old(self).frames@.len(), 2nat,
    {
        let result = match self.env.buffers.get_return() {
            Some(v) => v,
            None => CreateAny::NUL(),
        };
        self.env.exit();
        self.env.scope.pop_frame();
        if returntype.matches(&result) {
            match result {
                CreateAny::NUL() => Action::Continue,
                value => {
                    let flow = write(&mut self.env, value, false);
                    self.deliver(flow)
                },
            }
        } else {
            self.raise(CreateError::new(SYNTAX, "Improper function return"))
        }
    }

    /// Starts the evaluation of a window of `code` on top of `frame`.
    fn begin_window(&mut self, frame: Frame, code: &MutableBuffer, lo: usize, hi: usize)
        ensures
            final(self)@ == old(self)@.begin(frame@, window(code@, lo, hi)),
    {
        self.push_frame(frame);
        self.push_frame(Frame::Eval { code: code.share(), lo, hi });
    }

    /// Evaluates the next element of an array literal, or writes the array.
    fn next_element(&mut self, items: Vec<MutableBuffer>, next: usize, done: Vec<CreateAny>) -> (out: Action)
        ensures
            (final(self)@, out@) == spec_next_element(old(self)@, codes_view(items@), next as nat, values_view(done@)),
    {
        if next < items.len() {
            let expression = items[next].share();
            self.enter(ReturnUse::Elements { items, next: next + 1, done }, &expression);
            Action::Continue
        } else {
            let flow = write(&mut self.env, CreateAny::ARR(done), false);
            self.deliver(flow)
        }
    }

    /// Evaluates the next field of a scope literal, or writes the scope.
    fn next_field(
        &mut self,
        fields: Vec<(String, CreateType, MutableBuffer)>,
        next: usize,
        done: PrimitiveScope,
    ) -> (out: Action)
        ensures
            (final(self)@, out@) == spec_next_field(old(self)@, fields_view(fields@), next as nat, done@),
    {
        if next < fields.len() {
            let expression = fields[next].2.share();
            self.enter(ReturnUse::Fields { fields, next: next + 1, done }, &expression);
            Action::Continue
        } else {
            let flow = write(&mut self.env, CreateAny::SCP(done), false);
            self.deliver(flow)
        }
    }

    /// Evaluates the next index of a walk through nested arrays.
    fn next_index(&mut self, array: Vec<CreateAny>, remaining: Vec<MutableBuffer>) -> (out: Action)
        ensures
            (final(self)@, out@) == spec_next_index(old(self)@, values_view(array@), codes_view(remaining@)),
    {
        let mut remaining = remaining;
        let ghost before = remaining@;
        match remaining.pop() {
            Some(expression) => {
                proof {
                    assert(codes_view(remaining@) =~= codes_view(before).drop_last());
                }
                self.enter(ReturnUse::LongIndex { array, remaining }, &expression);
                Action::Continue
            },
            None => self.raise(CreateError::new(SYNTAX, "Long array index cannot return null value")),
        }
    }

    /// Evaluates the next argument of a call, or makes the call.
    fn next_argument(
        &mut self,
        function: Function,
        items: Vec<MutableBuffer>,
        remaining: usize,
        done: Vec<CreateAny>,
    ) -> (out: Action)
        ensures
            (final(self)@, out@) == spec_next_argument(
                old(self)@,
                function@,
                codes_view(items@),
                remaining as nat,
                values_view(done@),
            ),
    {
        if 0 < remaining && remaining <= items.len() {
            let expression = items[remaining - 1].share();
            self.enter(
                ReturnUse::Arguments { function, items, remaining: remaining - 1, done },
                &expression,
            );
            Action::Continue
        } else {
            self.call(function, done)
        }
    }

    /// Calls a function with evaluated arguments.
    pub fn call(&mut self, function: Function, args: Vec<CreateAny>) -> (out: Action)
        ensures
            (final(self)@, out@) == spec_call(old(self)@, function@, values_view(args@)),
    {
        if args.len() != function.params.len() {
            return self.raise(CreateError::new(ARGUMENT, "Wrong number of arguments in function call"));
        }
        let mut i: usize = 0;
        while i < args.len()
            invariant
                i <= args.len(),
                args.len() == function.params.len(),
                *self == *old(self),
                forall|j: int|
                    0 <= j < i ==> (#[trigger] function@.params[j]).0 == values_view(args@)[j].tag(),
            decreases args.len() - i,
        {
            if !function.params[i].0.matches(&args[i]) {
                proof {
                    assert(function@.params[i as int].0 != values_view(args@)[i as int].tag());
                }
                return self.raise(CreateError::new(ARGUMENT, "Argument in function call was mistyped"));
            }
            i = i + 1;
        }
        self.env.scope.push_frame();
        let mut k: usize = 0;
        while k < args.len()
            invariant
                k <= args.len(),
                args.len() == function.params.len(),
                self.frames == old(self).frames,
                self.env.buffers == old(self).env.buffers,
                self.env.writers == old(self).env.writers,
                self.env.scope@.parents == old(self)@.env.scope.child().parents,
                self.env.scope@.scope == seeded(
                    Seq::empty(),
                    function@.params,
                    values_view(args@),
                    k as nat,
                ),
            decreases args.len() - k,
        {
            self.env.scope.insert_locally(function.params[k].1.clone(), args[k].duplicate());
            k = k + 1;
        }
        self.env.enter();
        self.begin(Frame::CallBody { returntype: function.returntype }, &function.mutbuffer);
        Action::Continue
    }

    /// Binds the value of the right-hand side in a window of `code`.
    fn bind(
        &mut self,
        mode: InsertMode,
        flavor: CreateType,
        path: Identifier,
        code: &MutableBuffer,
        lo: usize,
        hi: usize,
    ) -> (out: Action)
        ensures
            (final(self)@, out@) == spec_bind(old(self)@, mode, flavor, path_view(path@), window(code@, lo, hi)),
    {
        match flavor {
            CreateType::BUF | CreateType::ARR => {
                self.begin_window(Frame::Bind { mode, flavor, path }, code, lo, hi);
            },
            _ => {
                self.env.enter();
                self.begin_window(Frame::Return(ReturnUse::BindValue { flavor, path }), code, lo, hi);
            },
        }
        Action::Continue
    }

    /// Assigns a value to a dotted identifier.
    fn assign(&mut self, mode: InsertMode, path: Identifier, value: CreateAny) -> (out: Action)
        ensures
            (final(self)@, out@) == spec_assign(old(self)@, mode, path_view(path@), value@),
    {
        match insert_through(path, value, &mut self.env.scope, mode) {
            CreateResult::Success() => Action::Continue,
            CreateResult::Failure(e) => self.raise(e),
        }
    }

    /// Starts a control construct.
    pub fn start(&mut self, c: &Controller) -> (out: Action)
        ensures
            (final(self)@, out@) == spec_start(old(self)@, c@),
    {
        match c {
            Controller::If(i) => {
                self.begin(Frame::Branch { then: i.mutbuffer.share(), otherwise: None }, &i.condition);
                Action::Continue
            },
            Controller::IfElse(i) => {
                self.begin(
                    Frame::Branch { then: i.ifmutbuffer.share(), otherwise: Some(i.elsemutbuffer.share()) },
                    &i.condition,
                );
                Action::Continue
            },
            Controller::For(f) => {
                self.begin(
                    Frame::ForStart { name: clone_name(&f.identifier), body: f.mutbuffer.share() },
                    &f.times,
                );
                Action::Continue
            },
            Controller::ForIn(f) => {
                self.begin(
                    Frame::ForInStart { name: clone_name(&f.identifier), body: f.mutbuffer.share() },
                    &f.value,
                );
                Action::Continue
            },
            Controller::While(w) => {
                self.begin(
                    Frame::WhileTest { condition: w.condition.share(), body: w.mutbuffer.share() },
                    &w.condition,
                );
                Action::Continue
            },
            Controller::Scoped(b) => {
                self.env.scope.push_frame();
                self.push_frame(Frame::Block { remaining: share_all(&b.mutbuffers) });
                Action::Continue
            },
            Controller::Call(c) => {
                let resolved = resolve_identifier(&c.name, &self.env.scope);
                match resolved {
                    Ok(CreateAny::FUN(function)) => {
                        let items = share_all(&c.params);
                        let remaining = items.len();
                        let done: Vec<CreateAny> = Vec::new();
                        proof {
                            assert(values_view(done@) =~= Seq::empty());
                        }
                        self.next_argument(function, items, remaining, done)
                    },
                    Ok(_) => self.raise(
                        CreateError::new(SYNTAX, "The name is not a function in the current scope"),
                    ),
                    Err(e) => self.raise(e),
                }
            },
        }
    }

    /// Runs one directive; `code` between `lo` and `hi` holds the right-hand
    /// side of a binder.
    pub fn dispatch(&mut self, d: &CreateDirective, discard: bool, code: &MutableBuffer, lo: usize, hi: usize) -> (out:
        Action)
        ensures
            (final(self)@, out@) == spec_dispatch(old(self)@, d@, discard, window(code@, lo, hi)),
    {
        match d {
            CreateDirective::READ_BUF() => {
                match self.env.buffers.get_buf(0) {
                    Some(b) => {
                        let flow = write(&mut self.env, CreateAny::BUF(b), false);
                        self.deliver(flow)
                    },
                    None => self.raise(CreateError::new(BUFFER_INDEX, "Could not read buffer at index 0")),
                }
            },
            CreateDirective::READ_IBF(i) => {
                match self.env.buffers.get_buf(*i) {
                    Some(b) => {
                        let flow = write(&mut self.env, CreateAny::BUF(b), false);
                        self.deliver(flow)
                    },
                    None => self.raise(
                        CreateError::new(BUFFER_INDEX, "Could not read buffer at the given index"),
                    ),
                }
            },
            CreateDirective::READ_IAR(n, e) => {
                self.enter(ReturnUse::Index { path: clone_identifier(n), discard }, e);
                Action::Continue
            },
            CreateDirective::READ_LIA(n, es) => {
                let resolved = resolve_identifier(n, &self.env.scope);
                match resolved {
                    Ok(CreateAny::ARR(a)) => self.next_index(a, share_all(es)),
                    Ok(_) => self.raise(
                        CreateError::new(SYNTAX, "The identifier was not an array as expected"),
                    ),
                    Err(e) => self.raise(e),
                }
            },
            CreateDirective::READ_NBF(n) => {
                let resolved = resolve_identifier(n, &self.env.scope);
                match resolved {
                    Ok(v) => {
                        let flow = write(&mut self.env, v, false);
                        self.deliver(flow)
                    },
                    Err(e) => self.raise(e),
                }
            },
            CreateDirective::WRITE_INS(i) => {
                self.env.push_writer(*i);
                Action::Continue
            },
            CreateDirective::WRITE_BUF(b) => {
                let flow = write(&mut self.env, CreateAny::BUF(*b), false);
                self.deliver(flow)
            },
            CreateDirective::WRITE_ARR(es) => {
                let done: Vec<CreateAny> = Vec::new();
                proof {
                    assert(values_view(done@) =~= Seq::empty());
                }
                self.next_element(share_all(es), 0, done)
            },
            CreateDirective::WRITE_FUN(f) => {
                let flow = write(&mut self.env, CreateAny::FUN(f.duplicate()), false);
                self.deliver(flow)
            },
            CreateDirective::WRITE_SCP(p) => self.next_field(
                clone_fields(&p.mutbuffers),
                0,
                PrimitiveScope::new(),
            ),
            CreateDirective::CONTROL(c) => self.start(c),
            CreateDirective::BREAK() => self.raise(CreateError::new(BREAK, "Found misplaced break statement")),
            CreateDirective::RETURN() => self.raise(
                CreateError::new(RETURN, "Found misplaced return statement"),
            ),
            CreateDirective::REMOVE_BUF() => {
                self.env.buffers.pop();
                Action::Continue
            },
            _ => {
                match binder(d) {
                    Some((mode, flavor, path)) => self.bind(mode, flavor, clone_identifier(path), code, lo, hi),
                    None => Action::Continue,
                }
            },
        }
    }

    /// Starts the evaluation of `expression` with no frame waiting for it.
    fn run(&mut self, expression: MutableBuffer)
        ensures
            final(self)@ == old(self)@.push(FrameView::Eval(expression@)),
    {
        let hi = expression.len();
        proof {
            assert(window(expression@, 0, hi) =~= expression@);
        }
        self.push_frame(Frame::Eval { code: expression, lo: 0, hi });
    }

    /// Binds the loop variable, if the loop has one, in the current frame.
    fn bind_loop_variable(&mut self, name: &Option<String>, value: CreateAny)
        ensures
            final(self)@ == old(self)@.with_env(with_loop_variable(old(self)@.env, name_view(*name), value@)),
    {
        match name {
            Some(n) => {
                self.env.scope.insert_locally(n.clone(), value);
            },
            None => {},
        }
    }

    /// Goes on with the value that an evaluation in a partition returned.
    pub fn returned(&mut self, then: ReturnUse, value: Option<CreateAny>) -> (out: Action)
        ensures
            (final(self)@, out@) == spec_returned(old(self)@, then@, option_view(value)),
    {
        match then {
            ReturnUse::Index { path, discard } => {
                let b = match value {
                    Some(CreateAny::BUF(b)) => b,
                    _ => {
                        return self.raise(
                            CreateError::new(SYNTAX, "Index of array did not return buffer, and none was found."),
                        );
                    },
                };
                let element: Result<Option<CreateAny>, CreateError> = match resolve_identifier_immut(
                    &path,
                    &self.env.scope,
                ) {
                    Ok(CreateAny::ARR(a)) => Ok(
                        match to_index(b, a.len()) {
                            Some(i) => Some(a[i].duplicate()),
                            None => None,
                        },
                    ),
                    Ok(_) => Err(CreateError::new(SYNTAX, "The identifier was not an array as expected.")),
                    Err(e) => Err(e),
                };
                match element {
                    Ok(Some(v)) => {
                        if discard {
                            self.env.buffers.pop();
                        }
                        let flow = write(&mut self.env, v, false);
                        self.deliver(flow)
                    },
                    Ok(None) => self.raise(
                        CreateError::new(SYNTAX, "The index was outside of the array"),
                    ),
                    Err(e) => self.raise(e),
                }
            },
            ReturnUse::LongIndex { array, remaining } => {
                let b = match value {
                    Some(CreateAny::BUF(b)) => b,
                    _ => {
                        return self.raise(
                            CreateError::new(SYNTAX, "Index in long array index did not return buffer"),
                        );
                    },
                };
                match to_index(b, array.len()) {
                    Some(i) => {
                        let v = array[i].duplicate();
                        if remaining.len() == 0 {
                            let flow = write(&mut self.env, v, false);
                            self.deliver(flow)
                        } else {
                            match v {
                                CreateAny::ARR(inner) => self.next_index(inner, remaining),
                                _ => self.raise(
                                    CreateError::new(
                                        SYNTAX,
                                        "Non-final index in long array index did not resolve to array",
                                    ),
                                ),
                            }
                        }
                    },
                    None => self.raise(
                        CreateError::new(SYNTAX, "Index in long array index could not be resolved"),
                    ),
                }
            },
            ReturnUse::Elements { items, next, done } => {
                match value {
                    Some(v) => {
                        let mut done = done;
                        let ghost before = values_view(done@);
                        done.push(v);
                        proof {
                            assert(values_view(done@) =~= before.push(v@));
                        }
                        self.next_element(items, next, done)
                    },
                    None => self.raise(CreateError::new(SYNTAX, "Arrays cannot contain null values.")),
                }
            },
            ReturnUse::Fields { fields, next, done } => {
                match value {
                    Some(v) => {
                        if 0 < next && next <= fields.len() && fields[next - 1].1.matches(&v) {
                            let mut done = done;
                            done.insert(fields[next - 1].0.clone(), v);
                            self.next_field(fields, next, done)
                        } else {
                            self.raise(CreateError::new(SYNTAX, "Scope values must be of appropriate type"))
                        }
                    },
                    None => self.raise(CreateError::new(SYNTAX, "Scope values cannot be none")),
                }
            },
            ReturnUse::BindValue { flavor, path } => {
                match value {
                    Some(v) => {
                        if flavor.matches(&v) {
                            self.assign(InsertMode::Normal, path, v)
                        } else {
                            self.raise(
                                CreateError::new(SYNTAX, "Tried to set a name to a value of another kind"),
                            )
                        }
                    },
                    None => self.raise(CreateError::new(SYNTAX, "Tried to set a name to a none value")),
                }
            },
            ReturnUse::Arguments { function, items, remaining, done } => {
                match value {
                    Some(v) => {
                        let mut done = done;
                        let ghost before = values_view(done@);
                        done.push(v);
                        proof {
                            assert(values_view(done@) =~= before.push(v@));
                        }
                        self.next_argument(function, items, remaining, done)
                    },
                    None => self.raise(
                        CreateError::new(SYNTAX, "Functions cannot have none values passed as arguments"),
                    ),
                }
            },
        }
    }

    /// Goes on after the evaluation above `frame` has finished; the frame has
    /// been taken off the stack.
    pub fn resume(&mut self, frame: Frame) -> (out: Action)
        ensures
            (final(self)@, out@) == spec_resume(old(self)@, frame@),
    {
        match frame {
            Frame::Eval { .. } => Action::Continue,
            Frame::Pending(_) => Action::Continue,
            Frame::Return(then) => {
                let value = self.env.buffers.get_return();
                self.env.exit();
                self.returned(then, value)
            },
            Frame::Bind { mode, flavor, path } => {
                match flavor {
                    CreateType::ARR => match self.env.buffers.get_arr(0) {
                        Some(a) => self.assign(mode, path, CreateAny::ARR(a)),
                        None => self.raise(
                            CreateError::new(SYNTAX, "Named buffer was attempted to be set to null."),
                        ),
                    },
                    _ => match self.env.buffers.get_buf(0) {
                        Some(b) => self.assign(mode, path, CreateAny::BUF(b)),
                        None => self.raise(
                            CreateError::new(SYNTAX, "Named buffer was attempted to be set to null."),
                        ),
                    },
                }
            },
            Frame::Branch { then, otherwise } => {
                match self.env.buffers.get_buf(0) {
                    Some(b) => {
                        if truthy(b) {
                            self.run(then);
                        } else {
                            match otherwise {
                                Some(e) => {
                                    self.run(e);
                                },
                                None => {},
                            }
                        }
                        Action::Continue
                    },
                    None => self.raise(
                        CreateError::new(UNFILLED, "If condition did not return buffer, and no buffers were found."),
                    ),
                }
            },
            Frame::ForStart { name, body } => {
                match self.env.buffers.get_buf(0) {
                    Some(b) => {
                        let count = to_count(b);
                        let end: u32 = if count > 0 {
                            count as u32
                        } else {
                            0
                        };
                        self.env.scope.push_frame();
                        self.push_frame(Frame::ForLoop { next: 0, end, name, body });
                        Action::Continue
                    },
                    None => self.raise(
                        CreateError::new(
                            SYNTAX,
                            "For loop condition did not return value, and no value was found in buffer",
                        ),
                    ),
                }
            },
            Frame::ForLoop { next, end, name, body } => {
                if next < end {
                    self.bind_loop_variable(&name, CreateAny::BUF(from_count(next)));
                    let expression = body.share();
                    self.begin(Frame::ForLoop { next: next + 1, end, name, body }, &expression);
                } else {
                    self.env.scope.pop_frame();
                }
                Action::Continue
            },
            Frame::ForInStart { name, body } => {
                match self.env.buffers.get_arr(0) {
                    Some(items) => {
                        self.env.scope.push_frame();
                        self.push_frame(Frame::ForInLoop { items, next: 0, name, body });
                        Action::Continue
                    },
                    None => self.raise(
                        CreateError::new(SYNTAX, "ForIn loop condition did not return array"),
                    ),
                }
            },
            Frame::ForInLoop { items, next, name, body } => {
                if next < items.len() {
                    self.bind_loop_variable(&name, items[next].duplicate());
                    let expression = body.share();
                    self.begin(Frame::ForInLoop { items, next: next + 1, name, body }, &expression);
                } else {
                    self.env.scope.pop_frame();
                }
                Action::Continue
            },
            Frame::WhileTest { condition, body } => {
                match self.env.buffers.get_buf(0) {
                    Some(b) => {
                        if truthy(b) {
                            let expression = body.share();
                            self.begin(Frame::WhileBody { condition, body }, &expression);
                        }
                        Action::Continue
                    },
                    None => self.raise(
                        CreateError::new(SYNTAX, "While condition did not return buffer, and no buffer was found."),
                    ),
                }
            },
            Frame::WhileBody { condition, body } => {
                let expression = condition.share();
                self.begin(Frame::WhileTest { condition, body }, &expression);
                Action::Continue
            },
            Frame::Block { remaining } => {
                let mut remaining = remaining;
                let ghost before = remaining@;
                match remaining.pop() {
                    Some(expression) => {
                        proof {
                            assert(codes_view(remaining@) =~= codes_view(before).drop_last());
                        }
                        self.begin(Frame::Block { remaining }, &expression);
                    },
                    None => {
                        self.env.scope.pop_frame();
                    },
                }
                Action::Continue
            },
            Frame::CallBody { returntype } => self.finish_call(returntype),
        }
    }

    /// Runs the next directive of a window whose frame has been taken off the
    /// stack.
    fn run_window(&mut self, code: MutableBuffer, lo: usize, hi: usize) -> (out: Action)
        requires
            lo < hi <= code@.len(),
        ensures
            (final(self)@, out@) == spec_run_directive_tokenless(
                old(self)@.push(FrameView::Eval(window(code@, lo, hi))),
            ),
    {
        let d = code.get(hi - 1);
        let taken = if binder(d).is_some() {
            read_mutable_buffer_tokenless(&code, lo, hi - 1)
        } else {
            0
        };
        let keep = hi - 1 - taken;
        proof {
            let m = old(self)@.push(FrameView::Eval(window(code@, lo, hi)));
            let s = window(code@, lo, hi);
            let rest = s.drop_last();
            assert(m.frames.last() == FrameView::Eval(s));
            assert(m.pop().frames =~= old(self)@.frames);
            assert(s.last() == code@[hi - 1]);
            assert(rest =~= window(code@, lo, (hi - 1) as usize));
            assert(rest.subrange(0, rest.len() - taken) =~= window(code@, lo, keep));
            assert(rest.subrange(rest.len() - taken, rest.len() as int) =~= window(
                code@,
                keep,
                (hi - 1) as usize,
            ));
        }
        self.push_frame(Frame::Eval { code: code.share(), lo, hi: keep });
        self.dispatch(d, true, &code, keep, hi - 1)
    }

    /// One transition.
    pub fn step(&mut self, event: Event) -> (out: Action)
        ensures
            (final(self)@, out@) == spec_step(old(self)@, event),
    {
        match self.pop_frame() {
            None => Action::Idle,
            Some(frame) => {
                match frame {
                    Frame::Pending(request) => match event {
                        Event::Scalar(b) => {
                            let flow = write(&mut self.env, CreateAny::BUF(b), false);
                            self.deliver(flow)
                        },
                        Event::Resume => {
                            self.push_frame(Frame::Pending(request));
                            proof {
                                assert(self@.frames =~= old(self)@.frames);
                            }
                            Action::Ask(request)
                        },
                    },
                    Frame::Eval { code, lo, hi } => {
                        if lo < hi && hi <= code.len() {
                            proof {
                                assert(old(self)@.pop().push(FrameView::Eval(window(code@, lo, hi))).frames
                                    =~= old(self)@.frames);
                            }
                            self.run_window(code, lo, hi)
                        } else {
                            Action::Continue
                        }
                    },
                    other => self.resume(other),
                }
            },
        }
    }
}

impl MutableBuffer {
    /// Schedules the expression for evaluation in the current environment.
    pub fn evaluate(&self, machine: &mut Machine, lossy: bool)
        ensures
            final(machine)@ == old(machine)@.push(FrameView::Eval(self@)),
    {
        machine.run(self.share());
    }

    /// Schedules the expression for evaluation; the expression is shared, so
    /// it can be evaluated again.
    pub fn evaluate_clone(&self, machine: &mut Machine, lossy: bool)
        ensures
            final(machine)@ == old(machine)@.push(FrameView::Eval(self@)),
    {
        machine.run(self.share());
    }

    /// Schedules the expression for evaluation in a fresh partition with
    /// writers of its own; `then` says what becomes of the value it returns,
    /// the front of the partition.
    pub fn eval_return(&self, machine: &mut Machine, then: ReturnUse, lossy: bool)
        ensures
            final(machine)@ == old(machine)@.enter(then@, self@),
    {
        machine.enter(then, self);
    }

    /// Schedules the expression like `eval_return`; the expression is shared,
    /// so it can be evaluated again.
    pub fn eval_clone_return(&self, machine: &mut Machine, then: ReturnUse, lossy: bool)
        ensures
            final(machine)@ == old(machine)@.enter(then@, self@),
    {
        machine.enter(then, self);
    }
}

impl Controller {
    /// Starts the construct on the machine.
    pub fn run(&self, machine: &mut Machine, lossy: bool) -> (out: Action)
        ensures
            (final(machine)@, out@) == spec_start(old(machine)@, self@),
    {
        machine.start(self)
    }
}

impl Function {
    /// Calls the function with evaluated arguments: checks them against the
    /// parameters and schedules the body in a scope frame, a partition and a
    /// writer stack of its own.
    pub fn evaluate(&self, params: Vec<CreateAny>, machine: &mut Machine, lossy: bool) -> (out: Action)
        ensures
            (final(machine)@, out@) == spec_call(old(machine)@, self@, values_view(params@)),
    {
        machine.call(self.duplicate(), params)
    }
}

impl ScopePrototype {
    /// Starts the construction of the scope: the fields are evaluated in
    /// declaration order, each in a partition, and the finished scope is
    /// written to the environment.
    pub fn construct(&self, machine: &mut Machine, lossy: bool) -> (out: Action)
        ensures
            (final(machine)@, out@) == spec_next_field(
                old(machine)@,
                fields_view(self.mutbuffers@),
                0,
                Seq::empty(),
            ),
    {
        machine.next_field(clone_fields(&self.mutbuffers), 0, PrimitiveScope::new())
    }
}

/// A program under interpretation: the tokens still to read, the next one
/// last, and the machine that evaluates what was read.
pub struct Interpreter {
    pub program: Vec<Token>,
    pub machine: Machine,
}

/// The model of a program under interpretation.
pub struct InterpreterView {
    pub program: Seq<Token>,
    pub machine: MachineView,
}

impl View for Interpreter {
    type V = InterpreterView;

    open spec fn view(&self) -> InterpreterView {
        InterpreterView { program: self.program@, machine: self.machine@ }
    }
}

/// The capacity of the right-hand side of a binder that is read from the
/// token stream: one value for a scalar or an array, no bound for a function
/// or a scope.
pub open spec fn statement_capacity(flavor: CreateType) -> Option<i32> {
    if flavor is BUF || flavor is ARR {
        Some(1)
    } else {
        None
    }
}

/// Runs a directive that was read from the token stream.  A binder builds its
/// right-hand side from the tokens that follow; an error in building it is
/// raised like any other.  The result holds the tokens left, which are not
/// determined when building failed.
pub open spec fn spec_run_directive(m: MachineView, d: DirectiveView, tokens: Seq<Token>) -> (
    (MachineView, ActionView),
    Option<Seq<Token>>,
) {
    match d {
        DirectiveView::Bind(_, flavor, _) => match spec_read_mutable_buffer(
            tokens,
            statement_capacity(flavor),
        ) {
            Ok((rhs, rest)) => (spec_dispatch(m, d, false, rhs), Some(rest)),
            Err(code) => (spec_raise(m, code), None),
        },
        _ => (spec_dispatch(m, d, false, Seq::empty()), Some(tokens)),
    }
}

/// Reads the next directive from the token stream and runs it.
pub open spec fn spec_write_token(m: MachineView, tokens: Seq<Token>) -> (
    (MachineView, ActionView),
    Option<Seq<Token>>,
) {
    match spec_read_token(tokens) {
        Ok((d, rest)) => spec_run_directive(m, d, rest),
        Err(code) => (spec_raise(m, code), None),
    }
}

/// One transition of a program.  While the machine has frames it makes a
/// transition of its own.  Otherwise the next directive is read from the
/// tokens and run; with no token left the program has ended.  A failure ends
/// the program: no token is left after it.
pub open spec fn spec_advance(i: InterpreterView, event: Event) -> (InterpreterView, ActionView) {
    if i.machine.frames.len() > 0 {
        let (machine, action) = spec_step(i.machine, event);
        (
            InterpreterView {
                program: if action is Failed {
                    Seq::empty()
                } else {
                    i.program
                },
                machine,
            },
            action,
        )
    } else if i.program.len() == 0 {
        (i, ActionView::Idle)
    } else {
        let ((machine, action), rest) = spec_write_token(i.machine, i.program);
        (
            InterpreterView {
                program: match rest {
                    Some(r) => if action is Failed {
                        Seq::empty()
                    } else {
                        r
                    },
                    None => Seq::empty(),
                },
                machine,
            },
            action,
        )
    }
}

/// Takes the next directive of the expression on top of the frame stack and
/// runs it; a binder takes its right-hand side from the directives that
/// follow.  No change where no directive is on top.
pub fn run_directive_tokenless(machine: &mut Machine, lossy: bool) -> (out: Action)
    ensures
        (final(machine)@, out@) == spec_run_directive_tokenless(old(machine)@),
{
    match machine.pop_frame() {
        Some(Frame::Eval { code, lo, hi }) => {
            if lo < hi && hi <= code.len() {
                proof {
                    assert(old(machine)@.pop().push(FrameView::Eval(window(code@, lo, hi))).frames
                        =~= old(machine)@.frames);
                }
                machine.run_window(code, lo, hi)
            } else {
                machine.push_frame(Frame::Eval { code, lo, hi });
                proof {
                    assert(machine@.frames =~= old(machine)@.frames);
                }
                Action::Continue
            }
        },
        Some(other) => {
            machine.push_frame(other);
            proof {
                assert(machine@.frames =~= old(machine)@.frames);
            }
            Action::Continue
        },
        None => Action::Continue,
    }
}

/// Runs a directive that was read from the token stream; a binder builds its
/// right-hand side from the tokens that follow.
pub fn run_directive(directive: CreateDirective, tokens: &mut Vec<Token>, machine: &mut Machine, lossy: bool) -> (out:
    Action)
    ensures
        (final(machine)@, out@) == spec_run_directive(old(machine)@, directive@, old(tokens)@).0,
        match spec_run_directive(old(machine)@, directive@, old(tokens)@).1 {
            Some(rest) => final(tokens)@ == rest,
            None => true,
        },
{
    match binder(&directive) {
        Some((_, flavor, _)) => {
            let capacity: Option<i32> = match flavor {
                CreateType::BUF | CreateType::ARR => Some(1),
                _ => None,
            };
            match read_mutable_buffer(tokens, capacity) {
                Ok(rhs) => {
                    let hi = rhs.len();
                    proof {
                        assert(window(rhs@, 0, hi) =~= rhs@);
                    }
                    machine.dispatch(&directive, false, &rhs, 0, hi)
                },
                Err(e) => machine.raise(e),
            }
        },
        None => {
            let rhs = MutableBuffer::new();
            proof {
                assert(window(rhs@, 0, 0) =~= Seq::empty());
            }
            machine.dispatch(&directive, false, &rhs, 0, 0)
        },
    }
}

/// Reads the next directive from the token stream and runs it.
pub fn write_token(tokens: &mut Vec<Token>, machine: &mut Machine) -> (out: Action)
    ensures
        (final(machine)@, out@) == spec_write_token(old(machine)@, old(tokens)@).0,
        match spec_write_token(old(machine)@, old(tokens)@).1 {
            Some(rest) => final(tokens)@ == rest,
            None => true,
        },
{
    match read_token(tokens) {
        Ok(d) => run_directive(d, tokens, machine, true),
        Err(e) => machine.raise(e),
    }
}

/// Sets a program up for interpretation.  `data` holds the tokens in source
/// order.
pub fn interpret_program(data: Vec<Token>) -> (out: Interpreter)
    ensures
        out@.program == data@.reverse(),
        out@.machine == (MachineView { env: EnvView::initial(), frames: Seq::empty() }),
{
    let mut data = data;
    let mut program: Vec<Token> = Vec::new();
    let ghost all = data@;
    while data.len() > 0
        invariant
            data@.len() + program@.len() == all.len(),
            data@ == all.subrange(0, data@.len() as int),
            forall|i: int| 0 <= i < program@.len() ==> program@[i] == all[all.len() - 1 - i],
        decreases data.len(),
    {
        match data.pop() {
            Some(token) => {
                program.push(token);
            },
            None => {},
        }
    }
    proof {
        assert(program@ =~= all.reverse());
    }
    Interpreter { program, machine: Machine::new() }
}

impl Interpreter {
    /// One transition of the program.
    pub fn advance(&mut self, event: Event) -> (out: Action)
        ensures
            (final(self)@, out@) == spec_advance(old(self)@, event),
    {
        if !self.machine.is_idle() {
            let out = self.machine.step(event);
            match out {
                Action::Failed(_) => {
                    self.program.clear();
                },
                _ => {},
            }
            out
        } else if self.program.len() == 0 {
            Action::Idle
        } else {
            let out = write_token(&mut self.program, &mut self.machine);
            match out {
                Action::Failed(_) => {
                    self.program.clear();
                },
                _ => {},
            }
            out
        }
    }

    /// Whether the program has ended: nothing is left to read or to evaluate.
    pub fn is_finished(&self) -> (out: bool)
        ensures
            out == (self@.program.len() == 0 && self@.machine.frames.len() == 0),
    {
        self.program.len() == 0 && self.machine.is_idle()
    }
}

} // verus!
