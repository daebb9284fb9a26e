//! The data model: runtime values and the directives that programs are made
//! of.
//!
//! Program text is immutable once built.  A `MutableBuffer` is a shared handle
//! to its directives, so taking a copy of an expression is cheap and the copy
//! is the same expression.  Runtime values own their contents; the model of a
//! value is its `ValueView`.
use std::rc::Rc;
use vstd::prelude::*;
use crate::instructions::Instruction;
use crate::scalar::Buffer;
use crate::scope::InsertMode;

verus! {

/// The elements of an array value.
pub type Array = Vec<CreateAny>;

/// A dotted name, one string per segment, in source order.
pub type Identifier = Vec<String>;

/// The model of an identifier.
pub type Path = Seq<Seq<char>>;

/// Runtime type tags.
#[derive(Clone, Copy, Debug)]
pub enum CreateType {
    BUF,
    ARR,
    FUN,
    SCP,
    NUL,
}

/// A runtime value.
#[derive(Debug)]
pub enum CreateAny {
    BUF(Buffer),
    ARR(Array),
    FUN(Function),
    SCP(PrimitiveScope),
    NUL(),
}

/// A mapping from names to values: a scope value, or one frame of the scope
/// chain.  A lookup finds the first entry with the name.
#[derive(Debug)]
pub struct PrimitiveScope {
    pub entries: Vec<(String, CreateAny)>,
}

/// A function value: typed parameters, a body and a declared return type.
#[derive(Debug)]
pub struct Function {
    pub params: Vec<(CreateType, String)>,
    pub mutbuffer: MutableBuffer,
    pub returntype: CreateType,
}

/// One expression: directives stored so that the last one runs first.
#[derive(Debug)]
pub struct MutableBuffer(pub Rc<Vec<CreateDirective>>);

/// The declaration of a scope literal: named, typed field expressions in
/// declaration order.
#[derive(Debug)]
pub struct ScopePrototype {
    pub mutbuffers: Vec<(String, CreateType, MutableBuffer)>,
}

/// `if`: a condition and the body that runs when it holds.
#[derive(Debug)]
pub struct If {
    pub condition: MutableBuffer,
    pub mutbuffer: MutableBuffer,
}

/// `if` with `else`: a condition and the two bodies it chooses between.
#[derive(Debug)]
pub struct IfElse {
    pub condition: MutableBuffer,
    pub ifmutbuffer: MutableBuffer,
    pub elsemutbuffer: MutableBuffer,
}

/// `for`: the expression of the count, the name of the loop variable and the
/// body.
#[derive(Debug)]
pub struct For {
    pub times: MutableBuffer,
    pub identifier: Option<String>,
    pub mutbuffer: MutableBuffer,
}

/// `forin`: the expression of the array, the name of the loop variable and
/// the body.
#[derive(Debug)]
pub struct ForIn {
    pub value: MutableBuffer,
    pub identifier: Option<String>,
    pub mutbuffer: MutableBuffer,
}

/// `while`: a condition and the body that runs while it holds.
#[derive(Debug)]
pub struct While {
    pub condition: MutableBuffer,
    pub mutbuffer: MutableBuffer,
}

/// A block: expressions stored so that the last one runs first.
#[derive(Debug)]
pub struct Scoped {
    pub mutbuffers: Vec<MutableBuffer>,
}

/// A call: the callee's name and the argument expressions, stored so that the
/// last one is the first argument.
#[derive(Debug)]
pub struct FunctionCall {
    pub params: Vec<MutableBuffer>,
    pub name: Identifier,
}

/// The control constructs.
#[derive(Debug)]
pub enum Controller {
    If(If),
    IfElse(IfElse),
    For(For),
    ForIn(ForIn),
    While(While),
    Scoped(Scoped),
    Call(FunctionCall),
}

/// One step of an expression.
#[derive(Debug)]
pub enum CreateDirective {
    READ_BUF(),
    READ_IBF(usize),
    READ_IAR(Identifier, MutableBuffer),
    READ_LIA(Identifier, Vec<MutableBuffer>),
    READ_NBF(Identifier),
    WRITE_INS(Instruction),
    WRITE_BUF(Buffer),
    WRITE_ARR(Vec<MutableBuffer>),
    WRITE_FUN(Function),
    WRITE_SCP(ScopePrototype),
    WRITE_NBF(Identifier),
    WRITE_NAR(Identifier),
    WRITE_NSC(Identifier),
    WRITE_NFN(Identifier),
    WRITE_GNB(Identifier),
    WRITE_GNA(Identifier),
    WRITE_LNB(Identifier),
    WRITE_LNA(Identifier),
    CONTROL(Controller),
    BREAK(),
    RETURN(),
    REMOVE_BUF(),
}

/// The model of a runtime value.
pub enum ValueView {
    Scalar(Buffer),
    Array(Seq<ValueView>),
    Function(FunctionView),
    Scope(Seq<(Seq<char>, ValueView)>),
    Null,
}

/// The model of a function value.
pub struct FunctionView {
    pub params: Seq<(CreateType, Seq<char>)>,
    pub body: CodeView,
    pub returntype: CreateType,
}

/// The model of an expression: its directives, the last one running first.
pub type CodeView = Seq<DirectiveView>;

/// The model of the field declarations of a scope literal.
pub type FieldsView = Seq<(Seq<char>, CreateType, CodeView)>;

/// The model of a directive.
pub enum DirectiveView {
    /// Copy the scalar at the front of the operand stack.
    ReadTop,
    /// Copy the scalar at a position of the operand stack.
    ReadAt(usize),
    /// Read the element of a named array at an evaluated index.
    ReadIndexed(Path, CodeView),
    /// Walk nested arrays by evaluated indices, the first index last.
    ReadLongIndexed(Path, Seq<CodeView>),
    /// Read a named value.
    ReadNamed(Path),
    /// Push a writer.
    WriteInstruction(Instruction),
    /// Write a number.
    WriteLiteral(Buffer),
    /// Write an array of evaluated elements, in declaration order.
    WriteArray(Seq<CodeView>),
    /// Write a function value.
    WriteFunction(FunctionView),
    /// Write a scope of evaluated fields.
    WriteScope(FieldsView),
    /// Bind the value of the following expression to a name.
    Bind(InsertMode, CreateType, Path),
    /// Run a control construct.
    Control(ControllerView),
    /// Raise the break signal.
    Break,
    /// Raise the return signal.
    Return,
    /// Drop the front of the operand stack.
    RemoveTop,
}

/// The model of a control construct.
pub enum ControllerView {
    If(CodeView, CodeView),
    IfElse(CodeView, CodeView, CodeView),
    For(CodeView, Option<Seq<char>>, CodeView),
    ForIn(CodeView, Option<Seq<char>>, CodeView),
    While(CodeView, CodeView),
    /// The expressions of a block, the first one last.
    Scoped(Seq<CodeView>),
    /// The callee and the argument expressions, the first argument last.
    Call(Path, Seq<CodeView>),
}

/// The model of a scope: its entries in insertion order.
pub type ScopeView = Seq<(Seq<char>, ValueView)>;

/// The model of a value.
pub open spec fn value_view(v: CreateAny) -> ValueView
    decreases v,
{
    match v {
        CreateAny::BUF(b) => ValueView::Scalar(b),
        CreateAny::ARR(a) => ValueView::Array(values_view(a@)),
        CreateAny::FUN(f) => ValueView::Function(function_view(f)),
        CreateAny::SCP(s) => ValueView::Scope(entries_view(s.entries@)),
        CreateAny::NUL() => ValueView::Null,
    }
}

/// The models of a list of values.
pub open spec fn values_view(s: Seq<CreateAny>) -> Seq<ValueView>
    decreases s,
{
    Seq::new(
        s.len(),
        |i: int|
            if 0 <= i < s.len() {
                value_view(s[i])
            } else {
                ValueView::Null
            },
    )
}

/// The model of the entries of a scope.
pub open spec fn entries_view(s: Seq<(String, CreateAny)>) -> ScopeView
    decreases s,
{
    Seq::new(
        s.len(),
        |i: int|
            if 0 <= i < s.len() {
                (s[i].0@, value_view(s[i].1))
            } else {
                (Seq::empty(), ValueView::Null)
            },
    )
}

/// The model of a function value.
pub open spec fn function_view(f: Function) -> FunctionView
    decreases f,
{
    FunctionView {
        params: params_view(f.params@),
        body: code_view(f.mutbuffer),
        returntype: f.returntype,
    }
}

/// The model of an expression.
pub open spec fn code_view(m: MutableBuffer) -> CodeView
    decreases m,
{
    directives_view(m.0@)
}

/// The models of a list of directives.
pub open spec fn directives_view(s: Seq<CreateDirective>) -> CodeView
    decreases s,
{
    Seq::new(
        s.len(),
        |i: int|
            if 0 <= i < s.len() {
                directive_view(s[i])
            } else {
                DirectiveView::Break
            },
    )
}

/// The models of a list of expressions.
pub open spec fn codes_view(s: Seq<MutableBuffer>) -> Seq<CodeView>
    decreases s,
{
    Seq::new(
        s.len(),
        |i: int|
            if 0 <= i < s.len() {
                code_view(s[i])
            } else {
                Seq::empty()
            },
    )
}

/// The model of the field declarations of a scope literal.
pub open spec fn fields_view(s: Seq<(String, CreateType, MutableBuffer)>) -> FieldsView
    decreases s,
{
    Seq::new(
        s.len(),
        |i: int|
            if 0 <= i < s.len() {
                (s[i].0@, s[i].1, code_view(s[i].2))
            } else {
                (Seq::empty(), CreateType::NUL, Seq::empty())
            },
    )
}

/// The model of an optional name.
pub open spec fn name_view(name: Option<String>) -> Option<Seq<char>> {
    match name {
        Some(n) => Some(n@),
        None => None,
    }
}

/// The model of a control construct.
pub open spec fn controller_view(c: Controller) -> ControllerView
    decreases c,
{
    match c {
        Controller::If(i) => ControllerView::If(code_view(i.condition), code_view(i.mutbuffer)),
        Controller::IfElse(i) => ControllerView::IfElse(
            code_view(i.condition),
            code_view(i.ifmutbuffer),
            code_view(i.elsemutbuffer),
        ),
        Controller::For(f) => ControllerView::For(
            code_view(f.times),
            name_view(f.identifier),
            code_view(f.mutbuffer),
        ),
        Controller::ForIn(f) => ControllerView::ForIn(
            code_view(f.value),
            name_view(f.identifier),
            code_view(f.mutbuffer),
        ),
        Controller::While(w) => ControllerView::While(code_view(w.condition), code_view(w.mutbuffer)),
        Controller::Scoped(b) => ControllerView::Scoped(codes_view(b.mutbuffers@)),
        Controller::Call(c) => ControllerView::Call(path_view(c.name@), codes_view(c.params@)),
    }
}

/// The model of a directive.  The eight binders differ in the frame they
/// choose and in the type they bind.
pub open spec fn directive_view(d: CreateDirective) -> DirectiveView
    decreases d,
{
    match d {
        CreateDirective::READ_BUF() => DirectiveView::ReadTop,
        CreateDirective::READ_IBF(i) => DirectiveView::ReadAt(i),
        CreateDirective::READ_IAR(n, m) => DirectiveView::ReadIndexed(path_view(n@), code_view(m)),
        CreateDirective::READ_LIA(n, ms) => DirectiveView::ReadLongIndexed(path_view(n@), codes_view(ms@)),
        CreateDirective::READ_NBF(n) => DirectiveView::ReadNamed(path_view(n@)),
        CreateDirective::WRITE_INS(i) => DirectiveView::WriteInstruction(i),
        CreateDirective::WRITE_BUF(b) => DirectiveView::WriteLiteral(b),
        CreateDirective::WRITE_ARR(ms) => DirectiveView::WriteArray(codes_view(ms@)),
        CreateDirective::WRITE_FUN(f) => DirectiveView::WriteFunction(function_view(f)),
        CreateDirective::WRITE_SCP(p) => DirectiveView::WriteScope(fields_view(p.mutbuffers@)),
        CreateDirective::WRITE_NBF(n) => DirectiveView::Bind(InsertMode::Normal, CreateType::BUF, path_view(n@)),
        CreateDirective::WRITE_NAR(n) => DirectiveView::Bind(InsertMode::Normal, CreateType::ARR, path_view(n@)),
        CreateDirective::WRITE_NSC(n) => DirectiveView::Bind(InsertMode::Normal, CreateType::SCP, path_view(n@)),
        CreateDirective::WRITE_NFN(n) => DirectiveView::Bind(InsertMode::Normal, CreateType::FUN, path_view(n@)),
        CreateDirective::WRITE_GNB(n) => DirectiveView::Bind(InsertMode::Global, CreateType::BUF, path_view(n@)),
        CreateDirective::WRITE_GNA(n) => DirectiveView::Bind(InsertMode::Global, CreateType::ARR, path_view(n@)),
        CreateDirective::WRITE_LNB(n) => DirectiveView::Bind(InsertMode::Local, CreateType::BUF, path_view(n@)),
        CreateDirective::WRITE_LNA(n) => DirectiveView::Bind(InsertMode::Local, CreateType::ARR, path_view(n@)),
        CreateDirective::CONTROL(c) => DirectiveView::Control(controller_view(c)),
        CreateDirective::BREAK() => DirectiveView::Break,
        CreateDirective::RETURN() => DirectiveView::Return,
        CreateDirective::REMOVE_BUF() => DirectiveView::RemoveTop,
    }
}

/// The model of a parameter list.
pub open spec fn params_view(s: Seq<(CreateType, String)>) -> Seq<(CreateType, Seq<char>)> {
    Seq::new(s.len(), |i: int| (s[i].0, s[i].1@))
}

/// The model of an identifier.
pub open spec fn path_view(s: Seq<String>) -> Path {
    Seq::new(s.len(), |i: int| s[i]@)
}

impl View for CreateAny {
    type V = ValueView;

    open spec fn view(&self) -> ValueView {
        value_view(*self)
    }
}

impl View for PrimitiveScope {
    type V = ScopeView;

    open spec fn view(&self) -> ScopeView {
        entries_view(self.entries@)
    }
}

impl View for Function {
    type V = FunctionView;

    open spec fn view(&self) -> FunctionView {
        function_view(*self)
    }
}

impl View for MutableBuffer {
    type V = CodeView;

    open spec fn view(&self) -> CodeView {
        code_view(*self)
    }
}

impl View for CreateDirective {
    type V = DirectiveView;

    open spec fn view(&self) -> DirectiveView {
        directive_view(*self)
    }
}

impl View for Controller {
    type V = ControllerView;

    open spec fn view(&self) -> ControllerView {
        controller_view(*self)
    }
}

impl ValueView {
    /// The type tag of a value.
    pub open spec fn tag(self) -> CreateType {
        match self {
            ValueView::Scalar(_) => CreateType::BUF,
            ValueView::Array(_) => CreateType::ARR,
            ValueView::Function(_) => CreateType::FUN,
            ValueView::Scope(_) => CreateType::SCP,
            ValueView::Null => CreateType::NUL,
        }
    }
}

/// `Rc::clone` of the standard library: the new handle points to the same
/// allocation, so it stands for the same directives.
#[verifier::external_body]
fn share_code(code: &Rc<Vec<CreateDirective>>) -> (out: Rc<Vec<CreateDirective>>)
    ensures
        out == *code,
{
    Rc::clone(code)
}

impl MutableBuffer {
    /// The empty expression.
    pub fn new() -> (out: MutableBuffer)
        ensures
            out@ == Seq::<DirectiveView>::empty(),
    {
        let out = MutableBuffer(Rc::new(Vec::new()));
        proof {
            assert(out@ =~= Seq::empty());
        }
        out
    }

    /// The expression made of `vec`, whose last directive runs first.
    pub fn new_from(vec: Vec<CreateDirective>) -> (out: MutableBuffer)
        ensures
            out@ == directives_view(vec@),
    {
        MutableBuffer(Rc::new(vec))
    }

    /// Another handle to the same expression.
    pub fn share(&self) -> (out: MutableBuffer)
        ensures
            out == *self,
    {
        MutableBuffer(share_code(&self.0))
    }

    /// The number of directives.
    pub fn len(&self) -> (out: usize)
        ensures
            out == self@.len(),
    {
        self.0.len()
    }

    /// The directive at `index`; the highest index runs first.
    pub fn get(&self, index: usize) -> (out: &CreateDirective)
        requires
            index < self@.len(),
        ensures
            out@ == self@[index as int],
    {
        &self.0[index]
    }
}

/// A copy of a list of expressions.
pub fn share_all(list: &Vec<MutableBuffer>) -> (out: Vec<MutableBuffer>)
    ensures
        out@ == list@,
{
    let mut out: Vec<MutableBuffer> = Vec::new();
    let mut i: usize = 0;
    while i < list.len()
        invariant
            i <= list.len(),
            out@ == list@.subrange(0, i as int),
        decreases list.len() - i,
    {
        out.push(list[i].share());
        proof {
            assert(out@ =~= list@.subrange(0, i + 1));
        }
        i = i + 1;
    }
    proof {
        assert(out@ =~= list@);
    }
    out
}

/// A copy of an identifier.
pub fn clone_identifier(identifier: &Identifier) -> (out: Identifier)
    ensures
        out@ == identifier@,
{
    let mut out: Vec<String> = Vec::new();
    let mut i: usize = 0;
    while i < identifier.len()
        invariant
            i <= identifier.len(),
            out@ == identifier@.subrange(0, i as int),
        decreases identifier.len() - i,
    {
        out.push(identifier[i].clone());
        proof {
            assert(out@ =~= identifier@.subrange(0, i + 1));
        }
        i = i + 1;
    }
    proof {
        assert(out@ =~= identifier@);
    }
    out
}

impl CreateType {
    /// Whether two tags are the same.
    pub fn same(&self, other: &CreateType) -> (out: bool)
        ensures
            out == (*self == *other),
    {
        match (self, other) {
            (CreateType::BUF, CreateType::BUF) => true,
            (CreateType::ARR, CreateType::ARR) => true,
            (CreateType::FUN, CreateType::FUN) => true,
            (CreateType::SCP, CreateType::SCP) => true,
            (CreateType::NUL, CreateType::NUL) => true,
            _ => false,
        }
    }

    /// Whether `val` is of this type.
    pub fn matches(&self, val: &CreateAny) -> (out: bool)
        ensures
            out == (*self == val@.tag()),
    {
        match (self, val) {
            (CreateType::BUF, CreateAny::BUF(_)) => true,
            (CreateType::ARR, CreateAny::ARR(_)) => true,
            (CreateType::FUN, CreateAny::FUN(_)) => true,
            (CreateType::SCP, CreateAny::SCP(_)) => true,
            (CreateType::NUL, CreateAny::NUL()) => true,
            _ => false,
        }
    }
}

impl Function {
    /// A function value.
    pub fn new(params: Vec<(CreateType, String)>, mutbuffer: MutableBuffer, returntype: CreateType) -> (out:
        Function)
        ensures
            out.params == params,
            out.mutbuffer == mutbuffer,
            out.returntype == returntype,
    {
        Function { params, mutbuffer, returntype }
    }

    /// A copy of the function; the body is shared.
    pub fn duplicate(&self) -> (out: Function)
        ensures
            out@ == self@,
    {
        let mut params: Vec<(CreateType, String)> = Vec::new();
        let mut i: usize = 0;
        while i < self.params.len()
            invariant
                i <= self.params.len(),
                params@.len() == i,
                forall|j: int| 0 <= j < i ==> params@[j].0 == self.params@[j].0 && params@[j].1@ == self.params@[j].1@,
            decreases self.params.len() - i,
        {
            params.push((self.params[i].0, self.params[i].1.clone()));
            i = i + 1;
        }
        proof {
            assert(params_view(params@) =~= params_view(self.params@));
        }
        Function { params, mutbuffer: self.mutbuffer.share(), returntype: self.returntype }
    }
}

impl CreateAny {
    /// The type tag of the value.
    pub fn get_type(&self) -> (out: CreateType)
        ensures
            out == self@.tag(),
    {
        match self {
            CreateAny::BUF(..) => CreateType::BUF,
            CreateAny::ARR(..) => CreateType::ARR,
            CreateAny::FUN(..) => CreateType::FUN,
            CreateAny::SCP(..) => CreateType::SCP,
            CreateAny::NUL(..) => CreateType::NUL,
        }
    }

    /// A deep copy of the value.
    pub fn duplicate(&self) -> (out: CreateAny)
        ensures
            out@ == self@,
        decreases self,
    {
        match self {
            CreateAny::BUF(b) => CreateAny::BUF(*b),
            CreateAny::ARR(a) => {
                let mut items: Vec<CreateAny> = Vec::new();
                let mut i: usize = 0;
                while i < a.len()
                    invariant
                        i <= a.len(),
                        items@.len() == i,
                        *self == CreateAny::ARR(*a),
                        forall|j: int| 0 <= j < i ==> (#[trigger] items@[j])@ == a@[j]@,
                    decreases a.len() - i,
                {
                    proof {
                        assert(self->ARR_0 == *a);
                    }
                    items.push(a[i].duplicate());
                    i = i + 1;
                }
                proof {
                    assert(values_view(items@) =~= values_view(a@));
                }
                CreateAny::ARR(items)
            },
            CreateAny::FUN(f) => CreateAny::FUN(f.duplicate()),
            CreateAny::SCP(s) => {
                let mut entries: Vec<(String, CreateAny)> = Vec::new();
                let mut i: usize = 0;
                while i < s.entries.len()
                    invariant
                        i <= s.entries.len(),
                        entries@.len() == i,
                        *self == CreateAny::SCP(*s),
                        forall|j: int|
                            0 <= j < i ==> (#[trigger] entries@[j]).0@ == s.entries@[j].0@ && entries@[j].1@
                                == s.entries@[j].1@,
                    decreases s.entries.len() - i,
                {
                    proof {
                        assert(self->SCP_0 == *s);
                    }
                    entries.push((s.entries[i].0.clone(), s.entries[i].1.duplicate()));
                    i = i + 1;
                }
                proof {
                    assert(entries_view(entries@) =~= entries_view(s.entries@));
                }
                CreateAny::SCP(PrimitiveScope { entries })
            },
            CreateAny::NUL() => CreateAny::NUL(),
        }
    }
}

/// A deep copy of a list of values.
pub fn clone_values(list: &Vec<CreateAny>) -> (out: Vec<CreateAny>)
    ensures
        values_view(out@) == values_view(list@),
{
    let mut out: Vec<CreateAny> = Vec::new();
    let mut i: usize = 0;
    while i < list.len()
        invariant
            i <= list.len(),
            out@.len() == i,
            forall|j: int| 0 <= j < i ==> (#[trigger] out@[j])@ == list@[j]@,
        decreases list.len() - i,
    {
        out.push(list[i].duplicate());
        i = i + 1;
    }
    proof {
        assert(values_view(out@) =~= values_view(list@));
    }
    out
}

} // verus!
