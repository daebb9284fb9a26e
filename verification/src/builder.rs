//! The expression builder: from tokens to directives.
//!
//! Tokens are held in reverse, so that the last one is the next in source
//! order.  An expression is built one directive at a time under the capacity
//! rule: an instruction opens as many places as it takes operands, a binder
//! opens one for its right-hand side, and a directive that produces a value
//! fills a place.  The expression ends with the directive that leaves no place
//! open.  Bracketed forms and control constructs read their parts as
//! expressions of their own and count as one directive.
use vstd::prelude::*;
use crate::errors::CreateError;
use crate::errors::FORMAT;
use crate::errors::SYNTAX;
use crate::interpreter::capacities;
use crate::interpreter::capacities_bounded;
use crate::interpreter::capacity_step;
use crate::machine::capacity_after;
use crate::model::CodeView;
use crate::model::Controller;
use crate::model::ControllerView;
use crate::model::CreateDirective;
use crate::model::CreateType;
use crate::model::DirectiveView;
use crate::model::FieldsView;
use crate::model::For;
use crate::model::ForIn;
use crate::model::Function;
use crate::model::FunctionCall;
use crate::model::FunctionView;
use crate::model::Identifier;
use crate::model::If;
use crate::model::IfElse;
use crate::model::MutableBuffer;
use crate::model::Path;
use crate::model::ScopePrototype;
use crate::model::Scoped;
use crate::model::While;
use crate::model::codes_view;
use crate::model::directives_view;
use crate::model::fields_view;
use crate::model::name_view;
use crate::model::params_view;
use crate::model::path_view;
use crate::scope::InsertMode;
use crate::tokenizer::ControlFlow;
use crate::tokenizer::Special;
use crate::tokenizer::Token;

verus! {

/// The closing brackets.
#[derive(Clone, Copy, Debug)]
pub enum Closer {
    Round,
    Curly,
    Square,
}

/// Whether a token is the closing bracket.
pub open spec fn closes(token: Token, closer: Closer) -> bool {
    match (token, closer) {
        (Token::SPC(Special::CLR()), Closer::Round) => true,
        (Token::SPC(Special::CLB()), Closer::Curly) => true,
        (Token::SPC(Special::CLS()), Closer::Square) => true,
        _ => false,
    }
}

/// The tokens that `rest` leaves, clipped to what `tokens` had.
pub open spec fn within(rest: Seq<Token>, tokens: Seq<Token>) -> Seq<Token> {
    if rest.len() <= tokens.len() {
        rest
    } else {
        tokens
    }
}

/// The name that an identifier of one segment gives.
pub open spec fn single_name(identifier: Identifier) -> Option<Seq<char>> {
    if identifier@.len() == 1 {
        Some(identifier@[0]@)
    } else {
        None
    }
}

/// Whether `i` is the first declaration of the name.
pub open spec fn declared_at(fields: FieldsView, name: Seq<char>, i: int) -> bool {
    &&& 0 <= i < fields.len()
    &&& fields[i].0 == name
    &&& forall|j: int| 0 <= j < i ==> (#[trigger] fields[j]).0 != name
}

/// The declarations after a field is declared: a later declaration of a name
/// replaces the earlier one in place.
pub open spec fn fields_insert(fields: FieldsView, name: Seq<char>, ty: CreateType, code: CodeView) -> FieldsView {
    if exists|i: int| declared_at(fields, name, i) {
        fields.update(choose|i: int| declared_at(fields, name, i), (name, ty, code))
    } else {
        fields.push((name, ty, code))
    }
}

/// The initial capacity stack of an expression.
pub open spec fn initial_capacity(capacity: Option<i32>) -> Seq<int> {
    match capacity {
        Some(c) => seq![c as int],
        None => Seq::empty(),
    }
}

/// The directive that the next tokens make up, and the tokens left.  The
/// error is that of the first token that cannot be used: a closing bracket or
/// `else` out of place (3; 2 for `)`), a type out of place (2), and
/// `usize::MAX` where no token is left.
pub open spec fn spec_read_token(tokens: Seq<Token>) -> Result<(DirectiveView, Seq<Token>), usize>
    decreases tokens.len(), 1nat,
{
    if tokens.len() == 0 {
        Err(usize::MAX)
    } else {
        let rest = tokens.drop_last();
        match tokens.last() {
            Token::CMD(c) => Ok((DirectiveView::WriteInstruction(c.spec_instruction()), rest)),
            Token::NUM(b) => Ok((DirectiveView::WriteLiteral(b), rest)),
            Token::TYP(_) => Err(FORMAT),
            Token::CFL(k) => match k {
                ControlFlow::IFF => spec_read_if(rest),
                ControlFlow::FOR => spec_read_for(rest, false),
                ControlFlow::FRN => spec_read_for(rest, true),
                ControlFlow::WHL => spec_read_while(rest),
                ControlFlow::BRK => Ok((DirectiveView::Break, rest)),
                ControlFlow::RTN => Ok((DirectiveView::Return, rest)),
                ControlFlow::ELS => Err(SYNTAX),
            },
            Token::SPC(s) => match s {
                Special::RMB() => Ok((DirectiveView::RemoveTop, rest)),
                Special::BUF() => Ok((DirectiveView::ReadTop, rest)),
                Special::IBF(i) => Ok((DirectiveView::ReadAt(i), rest)),
                Special::SNB(n) => Ok(
                    (DirectiveView::Bind(InsertMode::Normal, CreateType::BUF, path_view(n@)), rest),
                ),
                Special::SNA(n) => Ok(
                    (DirectiveView::Bind(InsertMode::Normal, CreateType::ARR, path_view(n@)), rest),
                ),
                Special::SNS(n) => Ok(
                    (DirectiveView::Bind(InsertMode::Normal, CreateType::SCP, path_view(n@)), rest),
                ),
                Special::SNF(n) => Ok(
                    (DirectiveView::Bind(InsertMode::Normal, CreateType::FUN, path_view(n@)), rest),
                ),
                Special::SGB(n) => Ok(
                    (DirectiveView::Bind(InsertMode::Global, CreateType::BUF, path_view(n@)), rest),
                ),
                Special::SGA(n) => Ok(
                    (DirectiveView::Bind(InsertMode::Global, CreateType::ARR, path_view(n@)), rest),
                ),
                Special::SLB(n) => Ok(
                    (DirectiveView::Bind(InsertMode::Local, CreateType::BUF, path_view(n@)), rest),
                ),
                Special::SLA(n) => Ok(
                    (DirectiveView::Bind(InsertMode::Local, CreateType::ARR, path_view(n@)), rest),
                ),
                Special::GNB(n) => Ok((DirectiveView::ReadNamed(path_view(n@)), rest)),
                Special::FNC(n) => match spec_read_list(rest, Closer::Round, Seq::empty()) {
                    Ok((list, left)) => Ok(
                        (
                            DirectiveView::Control(ControllerView::Call(path_view(n@), list.reverse())),
                            left,
                        ),
                    ),
                    Err(code) => Err(code),
                },
                Special::OPB() => match spec_read_list(rest, Closer::Curly, Seq::empty()) {
                    Ok((list, left)) => Ok(
                        (DirectiveView::Control(ControllerView::Scoped(list.reverse())), left),
                    ),
                    Err(code) => Err(code),
                },
                Special::CLB() => Err(SYNTAX),
                Special::OPS() => match spec_read_list(rest, Closer::Square, Seq::empty()) {
                    Ok((list, left)) => Ok((DirectiveView::WriteArray(list), left)),
                    Err(code) => Err(code),
                },
                Special::CLS() => Err(SYNTAX),
                Special::GIA(n) => spec_read_index(rest, path_view(n@)),
                Special::OPR() => match spec_read_function(rest) {
                    Ok((function, left)) => Ok((DirectiveView::WriteFunction(function), left)),
                    Err(code) => Err(code),
                },
                Special::CLR() => Err(FORMAT),
                Special::PIP() => match spec_read_scope(rest, Seq::empty()) {
                    Ok((fields, left)) => Ok((DirectiveView::WriteScope(fields), left)),
                    Err(code) => Err(code),
                },
            },
        }
    }
}

/// Directives are read until the capacity rule ends the expression or the
/// tokens run out; `acc` holds the directives read so far, in source order.
pub open spec fn spec_build(tokens: Seq<Token>, stack: Seq<int>, acc: CodeView) -> Result<
    (CodeView, Seq<Token>),
    usize,
>
    decreases tokens.len(), 2nat,
{
    if tokens.len() == 0 {
        Ok((acc.reverse(), tokens))
    } else {
        match spec_read_token(tokens) {
            Ok((d, rest)) => {
                let (next, stop) = capacity_after(stack, d);
                if stop || rest.len() >= tokens.len() {
                    Ok((acc.push(d).reverse(), rest))
                } else {
                    spec_build(rest, next, acc.push(d))
                }
            },
            Err(code) => Err(code),
        }
    }
}

/// The expression that the next tokens make up, its first directive last, and
/// the tokens left.
pub open spec fn spec_read_mutable_buffer(tokens: Seq<Token>, capacity: Option<i32>) -> Result<
    (CodeView, Seq<Token>),
    usize,
>
    decreases tokens.len(), 3nat,
{
    spec_build(tokens, initial_capacity(capacity), Seq::empty())
}

/// Expressions are read up to the closing bracket, which is taken, or to the
/// end of the tokens.
pub open spec fn spec_read_list(tokens: Seq<Token>, closer: Closer, acc: Seq<CodeView>) -> Result<
    (Seq<CodeView>, Seq<Token>),
    usize,
>
    decreases tokens.len(), 4nat,
{
    if tokens.len() == 0 {
        Ok((acc, tokens))
    } else if closes(tokens.last(), closer) {
        Ok((acc, tokens.drop_last()))
    } else {
        match spec_read_mutable_buffer(tokens, None) {
            Ok((code, rest)) => if rest.len() < tokens.len() {
                spec_read_list(rest, closer, acc.push(code))
            } else {
                Ok((acc.push(code), rest))
            },
            Err(code) => Err(code),
        }
    }
}

/// `if`: a condition, a body and, after `else`, another body.
pub open spec fn spec_read_if(tokens: Seq<Token>) -> Result<(DirectiveView, Seq<Token>), usize>
    decreases tokens.len(), 5nat,
{
    match spec_read_mutable_buffer(tokens, None) {
        Ok((condition, r1)) => match spec_read_mutable_buffer(within(r1, tokens), None) {
            Ok((then, r2)) => if r2.len() > 0 && r2.last() matches Token::CFL(ControlFlow::ELS) {
                match spec_read_mutable_buffer(within(r2.drop_last(), tokens), None) {
                    Ok((otherwise, r3)) => Ok(
                        (DirectiveView::Control(ControllerView::IfElse(condition, then, otherwise)), r3),
                    ),
                    Err(code) => Err(code),
                }
            } else {
                Ok((DirectiveView::Control(ControllerView::If(condition, then)), r2))
            },
            Err(code) => Err(code),
        },
        Err(code) => Err(code),
    }
}

/// `while`: a condition and a body.
pub open spec fn spec_read_while(tokens: Seq<Token>) -> Result<(DirectiveView, Seq<Token>), usize>
    decreases tokens.len(), 5nat,
{
    match spec_read_mutable_buffer(tokens, None) {
        Ok((condition, r1)) => match spec_read_mutable_buffer(within(r1, tokens), None) {
            Ok((body, r2)) => Ok((DirectiveView::Control(ControllerView::While(condition, body)), r2)),
            Err(code) => Err(code),
        },
        Err(code) => Err(code),
    }
}

/// `for` and `forin`: an optional scalar binder that names the loop variable,
/// the count or the array, and a body.  The name must have one segment
/// (error 3).
pub open spec fn spec_read_for(tokens: Seq<Token>, each: bool) -> Result<(DirectiveView, Seq<Token>), usize>
    decreases tokens.len(), 5nat,
{
    let named = tokens.len() > 0 && tokens.last() matches Token::SPC(Special::SNB(_));
    let r0 = if named {
        tokens.drop_last()
    } else {
        tokens
    };
    match spec_read_mutable_buffer(r0, None) {
        Ok((first, r1)) => {
            let name = if named {
                single_name(tokens.last()->SPC_0->SNB_0)
            } else {
                None
            };
            if named && name is None {
                Err(SYNTAX)
            } else {
                match spec_read_mutable_buffer(within(r1, tokens), None) {
                    Ok((body, r2)) => Ok(
                        (
                            DirectiveView::Control(
                                if each {
                                    ControllerView::ForIn(first, name, body)
                                } else {
                                    ControllerView::For(first, name, body)
                                },
                            ),
                            r2,
                        ),
                    ),
                    Err(code) => Err(code),
                }
            }
        },
        Err(code) => Err(code),
    }
}

/// An indexed read: one index expression closed by `]`, or several, which
/// walk nested arrays.
pub open spec fn spec_read_index(tokens: Seq<Token>, path: Path) -> Result<(DirectiveView, Seq<Token>), usize>
    decreases tokens.len(), 5nat,
{
    match spec_read_mutable_buffer(tokens, None) {
        Ok((index, r1)) => if r1.len() > 0 && closes(r1.last(), Closer::Square) {
            Ok((DirectiveView::ReadIndexed(path, index), r1.drop_last()))
        } else {
            match spec_read_list(within(r1, tokens), Closer::Square, seq![index]) {
                Ok((list, r2)) => Ok((DirectiveView::ReadLongIndexed(path, list.reverse()), r2)),
                Err(code) => Err(code),
            }
        },
        Err(code) => Err(code),
    }
}

/// The parameters of a function literal: binders up to `)`, each giving the
/// type of its parameter.
pub open spec fn spec_read_params(tokens: Seq<Token>, acc: Seq<(CreateType, Identifier)>) -> Result<
    (Seq<(CreateType, Identifier)>, Seq<Token>),
    usize,
>
    decreases tokens.len(),
{
    if tokens.len() == 0 {
        Ok((acc, tokens))
    } else {
        let rest = tokens.drop_last();
        match tokens.last() {
            Token::SPC(Special::CLR()) => Ok((acc, rest)),
            Token::SPC(Special::SNB(n)) => spec_read_params(rest, acc.push((CreateType::BUF, n))),
            Token::SPC(Special::SNA(n)) => spec_read_params(rest, acc.push((CreateType::ARR, n))),
            Token::SPC(Special::SNS(n)) => spec_read_params(rest, acc.push((CreateType::SCP, n))),
            Token::SPC(Special::SNF(n)) => spec_read_params(rest, acc.push((CreateType::FUN, n))),
            _ => Err(SYNTAX),
        }
    }
}

/// Whether every parameter name has one segment.
pub open spec fn params_named(params: Seq<(CreateType, Identifier)>) -> bool {
    forall|i: int| 0 <= i < params.len() ==> single_name((#[trigger] params[i]).1) is Some
}

/// The typed names of a parameter list.
pub open spec fn params_names(params: Seq<(CreateType, Identifier)>) -> Seq<(CreateType, Seq<char>)> {
    Seq::new(params.len(), |i: int| (params[i].0, params[i].1@[0]@))
}

/// A function literal: parameters, a return type and a body.  A parameter
/// name of several segments, or anything but a type after `)`, is error 3; no
/// token after `)` is error 2.
pub open spec fn spec_read_function(tokens: Seq<Token>) -> Result<(FunctionView, Seq<Token>), usize>
    decreases tokens.len(), 5nat,
{
    match spec_read_params(tokens, Seq::empty()) {
        Ok((params, r1)) => if !params_named(params) {
            Err(SYNTAX)
        } else if r1.len() == 0 {
            Err(FORMAT)
        } else {
            match r1.last() {
                Token::TYP(returntype) => match spec_read_mutable_buffer(
                    within(r1.drop_last(), tokens),
                    None,
                ) {
                    Ok((body, r2)) => Ok(
                        (FunctionView { params: params_names(params), body, returntype }, r2),
                    ),
                    Err(code) => Err(code),
                },
                _ => Err(SYNTAX),
            }
        },
        Err(code) => Err(code),
    }
}

/// The fields of a scope literal: binders, each followed by the expression of
/// its field, up to `|`.  The kind of binder gives the type of the field; a
/// name of several segments and any other token are error 3.
pub open spec fn spec_read_scope(tokens: Seq<Token>, acc: FieldsView) -> Result<(FieldsView, Seq<Token>), usize>
    decreases tokens.len(), 5nat,
{
    if tokens.len() == 0 {
        Ok((acc, tokens))
    } else {
        let rest = tokens.drop_last();
        match tokens.last() {
            Token::SPC(Special::PIP()) => Ok((acc, rest)),
            Token::SPC(Special::SNB(n)) => spec_read_field(rest, n, CreateType::BUF, acc),
            Token::SPC(Special::SNA(n)) => spec_read_field(rest, n, CreateType::ARR, acc),
            Token::SPC(Special::SNF(n)) => spec_read_field(rest, n, CreateType::FUN, acc),
            Token::SPC(Special::SNS(n)) => spec_read_field(rest, n, CreateType::SCP, acc),
            _ => Err(SYNTAX),
        }
    }
}

/// One field of a scope literal and the fields after it.
pub open spec fn spec_read_field(tokens: Seq<Token>, name: Identifier, ty: CreateType, acc: FieldsView) -> Result<
    (FieldsView, Seq<Token>),
    usize,
>
    decreases tokens.len(), 6nat,
{
    match single_name(name) {
        Some(n) => match spec_read_mutable_buffer(tokens, None) {
            Ok((code, rest)) => spec_read_scope(within(rest, tokens), fields_insert(acc, n, ty, code)),
            Err(code) => Err(code),
        },
        None => Err(SYNTAX),
    }
}

/// Reading a directive takes at least one token.
pub proof fn lemma_read_token_shrinks(tokens: Seq<Token>)
    ensures
        spec_read_token(tokens) matches Ok(read) ==> read.1.len() < tokens.len(),
    decreases tokens.len(), 1nat,
{
    if tokens.len() > 0 {
        let rest = tokens.drop_last();
        match tokens.last() {
            Token::CFL(k) => {
                match k {
                    ControlFlow::IFF => {
                        lemma_read_if_shrinks(rest);
                    },
                    ControlFlow::FOR => {
                        lemma_read_for_shrinks(rest, false);
                    },
                    ControlFlow::FRN => {
                        lemma_read_for_shrinks(rest, true);
                    },
                    ControlFlow::WHL => {
                        lemma_read_while_shrinks(rest);
                    },
                    _ => {},
                }
            },
            Token::SPC(s) => {
                match s {
                    Special::FNC(_) => {
                        lemma_read_list_shrinks(rest, Closer::Round, Seq::empty());
                    },
                    Special::OPB() => {
                        lemma_read_list_shrinks(rest, Closer::Curly, Seq::empty());
                    },
                    Special::OPS() => {
                        lemma_read_list_shrinks(rest, Closer::Square, Seq::empty());
                    },
                    Special::GIA(n) => {
                        lemma_read_index_shrinks(rest, path_view(n@));
                    },
                    Special::OPR() => {
                        lemma_read_function_shrinks(rest);
                    },
                    Special::PIP() => {
                        lemma_read_scope_shrinks(rest, Seq::empty());
                    },
                    _ => {},
                }
            },
            _ => {},
        }
    }
}

/// Building an expression gives no token back.
pub proof fn lemma_build_shrinks(tokens: Seq<Token>, stack: Seq<int>, acc: CodeView)
    ensures
        spec_build(tokens, stack, acc) matches Ok(built) ==> built.1.len() <= tokens.len(),
    decreases tokens.len(), 2nat,
{
    if tokens.len() > 0 {
        lemma_read_token_shrinks(tokens);
        match spec_read_token(tokens) {
            Ok((d, rest)) => {
                let (next, stop) = capacity_after(stack, d);
                if !(stop || rest.len() >= tokens.len()) {
                    lemma_build_shrinks(rest, next, acc.push(d));
                }
            },
            Err(_) => {},
        }
    }
}

/// Reading an expression gives no token back.
pub proof fn lemma_read_mutable_buffer_shrinks(tokens: Seq<Token>, capacity: Option<i32>)
    ensures
        spec_read_mutable_buffer(tokens, capacity) matches Ok(built) ==> built.1.len() <= tokens.len(),
    decreases tokens.len(), 3nat,
{
    lemma_build_shrinks(tokens, initial_capacity(capacity), Seq::empty());
}

proof fn lemma_read_list_shrinks(tokens: Seq<Token>, closer: Closer, acc: Seq<CodeView>)
    ensures
        spec_read_list(tokens, closer, acc) matches Ok(read) ==> read.1.len() <= tokens.len(),
    decreases tokens.len(), 4nat,
{
    if tokens.len() > 0 && !closes(tokens.last(), closer) {
        lemma_read_mutable_buffer_shrinks(tokens, None);
        match spec_read_mutable_buffer(tokens, None) {
            Ok((code, rest)) => {
                if rest.len() < tokens.len() {
                    lemma_read_list_shrinks(rest, closer, acc.push(code));
                }
            },
            Err(_) => {},
        }
    }
}

proof fn lemma_read_if_shrinks(tokens: Seq<Token>)
    ensures
        spec_read_if(tokens) matches Ok(read) ==> read.1.len() <= tokens.len(),
    decreases tokens.len(), 5nat,
{
    lemma_read_mutable_buffer_shrinks(tokens, None);
    match spec_read_mutable_buffer(tokens, None) {
        Ok((_, r1)) => {
            lemma_read_mutable_buffer_shrinks(within(r1, tokens), None);
            match spec_read_mutable_buffer(within(r1, tokens), None) {
                Ok((_, r2)) => {
                    if r2.len() > 0 && r2.last() matches Token::CFL(ControlFlow::ELS) {
                        lemma_read_mutable_buffer_shrinks(within(r2.drop_last(), tokens), None);
                    }
                },
                Err(_) => {},
            }
        },
        Err(_) => {},
    }
}

proof fn lemma_read_while_shrinks(tokens: Seq<Token>)
    ensures
        spec_read_while(tokens) matches Ok(read) ==> read.1.len() <= tokens.len(),
    decreases tokens.len(), 5nat,
{
    lemma_read_mutable_buffer_shrinks(tokens, None);
    match spec_read_mutable_buffer(tokens, None) {
        Ok((_, r1)) => {
            lemma_read_mutable_buffer_shrinks(within(r1, tokens), None);
        },
        Err(_) => {},
    }
}

proof fn lemma_read_for_shrinks(tokens: Seq<Token>, each: bool)
    ensures
        spec_read_for(tokens, each) matches Ok(read) ==> read.1.len() <= tokens.len(),
    decreases tokens.len(), 5nat,
{
    let named = tokens.len() > 0 && tokens.last() matches Token::SPC(Special::SNB(_));
    let r0 = if named {
        tokens.drop_last()
    } else {
        tokens
    };
    lemma_read_mutable_buffer_shrinks(r0, None);
    match spec_read_mutable_buffer(r0, None) {
        Ok((_, r1)) => {
            lemma_read_mutable_buffer_shrinks(within(r1, tokens), None);
        },
        Err(_) => {},
    }
}

proof fn lemma_read_index_shrinks(tokens: Seq<Token>, path: Path)
    ensures
        spec_read_index(tokens, path) matches Ok(read) ==> read.1.len() <= tokens.len(),
    decreases tokens.len(), 5nat,
{
    lemma_read_mutable_buffer_shrinks(tokens, None);
    match spec_read_mutable_buffer(tokens, None) {
        Ok((index, r1)) => {
            if !(r1.len() > 0 && closes(r1.last(), Closer::Square)) {
                lemma_read_list_shrinks(within(r1, tokens), Closer::Square, seq![index]);
            }
        },
        Err(_) => {},
    }
}

proof fn lemma_read_params_shrinks(tokens: Seq<Token>, acc: Seq<(CreateType, Identifier)>)
    ensures
        spec_read_params(tokens, acc) matches Ok(read) ==> read.1.len() <= tokens.len(),
    decreases tokens.len(),
{
    if tokens.len() > 0 {
        let rest = tokens.drop_last();
        match tokens.last() {
            Token::SPC(Special::SNB(n)) => {
                lemma_read_params_shrinks(rest, acc.push((CreateType::BUF, n)));
            },
            Token::SPC(Special::SNA(n)) => {
                lemma_read_params_shrinks(rest, acc.push((CreateType::ARR, n)));
            },
            Token::SPC(Special::SNS(n)) => {
                lemma_read_params_shrinks(rest, acc.push((CreateType::SCP, n)));
            },
            Token::SPC(Special::SNF(n)) => {
                lemma_read_params_shrinks(rest, acc.push((CreateType::FUN, n)));
            },
            _ => {},
        }
    }
}

proof fn lemma_read_function_shrinks(tokens: Seq<Token>)
    ensures
        spec_read_function(tokens) matches Ok(read) ==> read.1.len() <= tokens.len(),
    decreases tokens.len(), 5nat,
{
    lemma_read_params_shrinks(tokens, Seq::empty());
    match spec_read_params(tokens, Seq::empty()) {
        Ok((_, r1)) => {
            if r1.len() > 0 {
                lemma_read_mutable_buffer_shrinks(within(r1.drop_last(), tokens), None);
            }
        },
        Err(_) => {},
    }
}

proof fn lemma_read_scope_shrinks(tokens: Seq<Token>, acc: FieldsView)
    ensures
        spec_read_scope(tokens, acc) matches Ok(read) ==> read.1.len() <= tokens.len(),
    decreases tokens.len(), 5nat,
{
    if tokens.len() > 0 {
        let rest = tokens.drop_last();
        match tokens.last() {
            Token::SPC(Special::SNB(n)) => {
                lemma_read_field_shrinks(rest, n, CreateType::BUF, acc);
            },
            Token::SPC(Special::SNA(n)) => {
                lemma_read_field_shrinks(rest, n, CreateType::ARR, acc);
            },
            Token::SPC(Special::SNF(n)) => {
                lemma_read_field_shrinks(rest, n, CreateType::FUN, acc);
            },
            Token::SPC(Special::SNS(n)) => {
                lemma_read_field_shrinks(rest, n, CreateType::SCP, acc);
            },
            _ => {},
        }
    }
}

proof fn lemma_read_field_shrinks(tokens: Seq<Token>, name: Identifier, ty: CreateType, acc: FieldsView)
    ensures
        spec_read_field(tokens, name, ty, acc) matches Ok(read) ==> read.1.len() <= tokens.len(),
    decreases tokens.len(), 6nat,
{
    match single_name(name) {
        Some(n) => {
            lemma_read_mutable_buffer_shrinks(tokens, None);
            match spec_read_mutable_buffer(tokens, None) {
                Ok((code, rest)) => {
                    lemma_read_scope_shrinks(within(rest, tokens), fields_insert(acc, n, ty, code));
                },
                Err(_) => {},
            }
        },
        None => {},
    }
}

impl ScopePrototype {
    /// A scope literal without fields.
    pub fn new() -> (out: ScopePrototype)
        ensures
            fields_view(out.mutbuffers@) == Seq::<(Seq<char>, CreateType, CodeView)>::empty(),
    {
        let out = ScopePrototype { mutbuffers: Vec::new() };
        proof {
            assert(fields_view(out.mutbuffers@) =~= Seq::empty());
        }
        out
    }

    /// Declares a field; a field of the same name is replaced.
    pub fn insert(&mut self, n: String, m: MutableBuffer, t: CreateType)
        ensures
            fields_view(final(self).mutbuffers@) == fields_insert(fields_view(old(self).mutbuffers@), n@, t, m@),
    {
        let ghost before = fields_view(self.mutbuffers@);
        let mut i: usize = 0;
        while i < self.mutbuffers.len()
            invariant
                i <= self.mutbuffers.len(),
                *self == *old(self),
                forall|j: int| 0 <= j < i ==> (#[trigger] before[j]).0 != n@,
                before == fields_view(self.mutbuffers@),
            decreases self.mutbuffers.len() - i,
        {
            if self.mutbuffers[i].0 == n {
                proof {
                    assert(declared_at(before, n@, i as int));
                    let k = choose|k: int| declared_at(before, n@, k);
                    assert(declared_at(before, n@, k));
                    if k < i {
                        assert(before[k].0 != n@);
                    }
                    if i < k {
                        assert(before[i as int].0 != n@);
                    }
                }
                self.mutbuffers.remove(i);
                self.mutbuffers.insert(i, (n, t, m));
                proof {
                    assert(fields_view(self.mutbuffers@) =~= before.update(i as int, (n@, t, m@)));
                }
                return ;
            }
            i = i + 1;
        }
        proof {
            assert forall|k: int| !declared_at(before, n@, k) by {
                if 0 <= k < before.len() {
                    assert(before[k].0 != n@);
                }
            }
        }
        self.mutbuffers.push((n, t, m));
        proof {
            assert(fields_view(self.mutbuffers@) =~= before.push((n@, t, m@)));
        }
    }
}

fn is_closer(token: &Token, closer: Closer) -> (out: bool)
    ensures
        out == closes(*token, closer),
{
    match (token, closer) {
        (Token::SPC(Special::CLR()), Closer::Round) => true,
        (Token::SPC(Special::CLB()), Closer::Curly) => true,
        (Token::SPC(Special::CLS()), Closer::Square) => true,
        _ => false,
    }
}

fn take_name(identifier: Identifier) -> (out: Option<String>)
    ensures
        name_view(out) == single_name(identifier),
{
    let mut identifier = identifier;
    if identifier.len() == 1 {
        identifier.pop()
    } else {
        None
    }
}

/// Reads one directive from the tokens; bracketed forms and control
/// constructs read their parts with it.
pub fn read_token(tokens: &mut Vec<Token>) -> (out: Result<CreateDirective, CreateError>)
    ensures
        match spec_read_token(old(tokens)@) {
            Ok((d, rest)) => out is Ok && out->Ok_0@ == d && final(tokens)@ == rest,
            Err(code) => out is Err && out->Err_0.code == code,
        },
        out is Ok ==> final(tokens)@.len() < old(tokens)@.len(),
    decreases old(tokens)@.len(), 1nat,
{
    let token = match tokens.pop() {
        Some(t) => t,
        None => {
            return Err(CreateError::new(usize::MAX, "internal error"));
        },
    };
    match token {
        Token::CMD(cmd) => Ok(CreateDirective::WRITE_INS(cmd.instruction())),
        Token::NUM(num) => Ok(CreateDirective::WRITE_BUF(num)),
        Token::TYP(_) => Err(CreateError::new(FORMAT, "Unexpected type statement found")),
        Token::CFL(cfl) => match cfl {
            ControlFlow::IFF => read_if(tokens),
            ControlFlow::FOR => read_for(tokens, false),
            ControlFlow::FRN => read_for(tokens, true),
            ControlFlow::WHL => read_while(tokens),
            ControlFlow::BRK => Ok(CreateDirective::BREAK()),
            ControlFlow::RTN => Ok(CreateDirective::RETURN()),
            ControlFlow::ELS => Err(CreateError::new(SYNTAX, "Unexpected control flow token found")),
        },
        Token::SPC(spc) => match spc {
            Special::RMB() => Ok(CreateDirective::REMOVE_BUF()),
            Special::BUF() => Ok(CreateDirective::READ_BUF()),
            Special::IBF(i) => Ok(CreateDirective::READ_IBF(i)),
            Special::SNB(n) => Ok(CreateDirective::WRITE_NBF(n)),
            Special::SNA(n) => Ok(CreateDirective::WRITE_NAR(n)),
            Special::SNS(n) => Ok(CreateDirective::WRITE_NSC(n)),
            Special::SNF(n) => Ok(CreateDirective::WRITE_NFN(n)),
            Special::SGB(n) => Ok(CreateDirective::WRITE_GNB(n)),
            Special::SGA(n) => Ok(CreateDirective::WRITE_GNA(n)),
            Special::SLB(n) => Ok(CreateDirective::WRITE_LNB(n)),
            Special::SLA(n) => Ok(CreateDirective::WRITE_LNA(n)),
            Special::GNB(n) => Ok(CreateDirective::READ_NBF(n)),
            Special::FNC(n) => {
                let empty: Vec<MutableBuffer> = Vec::new();
                proof {
                    assert(codes_view(empty@) =~= Seq::empty());
                }
                match read_list(tokens, Closer::Round, empty) {
                    Ok(list) => Ok(
                        CreateDirective::CONTROL(Controller::Call(FunctionCall::new(n, reverse_codes(list)))),
                    ),
                    Err(e) => Err(e),
                }
            },
            Special::OPB() => {
                let empty: Vec<MutableBuffer> = Vec::new();
                proof {
                    assert(codes_view(empty@) =~= Seq::empty());
                }
                match read_list(tokens, Closer::Curly, empty) {
                    Ok(list) => Ok(
                        CreateDirective::CONTROL(Controller::Scoped(Scoped::new(reverse_codes(list)))),
                    ),
                    Err(e) => Err(e),
                }
            },
            Special::CLB() => Err(CreateError::new(SYNTAX, "Unexpected closing bracket.")),
            Special::OPS() => {
                let empty: Vec<MutableBuffer> = Vec::new();
                proof {
                    assert(codes_view(empty@) =~= Seq::empty());
                }
                match read_list(tokens, Closer::Square, empty) {
                    Ok(list) => Ok(CreateDirective::WRITE_ARR(list)),
                    Err(e) => Err(e),
                }
            },
            Special::CLS() => Err(CreateError::new(SYNTAX, "Unexpected closing square bracket.")),
            Special::GIA(n) => read_index(tokens, n),
            Special::OPR() => match read_function(tokens) {
                Ok(function) => Ok(CreateDirective::WRITE_FUN(function)),
                Err(e) => Err(e),
            },
            Special::CLR() => Err(CreateError::new(FORMAT, "Unexpected ) in source")),
            Special::PIP() => match read_scope(tokens) {
                Ok(prototype) => Ok(CreateDirective::WRITE_SCP(prototype)),
                Err(e) => Err(e),
            },
        },
    }
}

/// Builds one expression from the tokens.  `capacity` is the number of values
/// the expression has to produce before it may end; without it the
/// expression ends with its first complete directive.
pub fn read_mutable_buffer(tokens: &mut Vec<Token>, capacity: Option<i32>) -> (out: Result<
    MutableBuffer,
    CreateError,
>)
    ensures
        match spec_read_mutable_buffer(old(tokens)@, capacity) {
            Ok((code, rest)) => out is Ok && out->Ok_0@ == code && final(tokens)@ == rest,
            Err(code) => out is Err && out->Err_0.code == code,
        },
        out is Ok ==> final(tokens)@.len() <= old(tokens)@.len(),
        out is Ok && old(tokens)@.len() > 0 ==> final(tokens)@.len() < old(tokens)@.len(),
    decreases old(tokens)@.len(), 3nat,
{
    let mut stack: Vec<i64> = Vec::new();
    match capacity {
        Some(c) => {
            stack.push(c as i64);
        },
        None => {},
    }
    let mut acc: Vec<CreateDirective> = Vec::new();
    proof {
        assert(capacities(stack@) =~= initial_capacity(capacity));
        assert(directives_view(acc@) =~= Seq::empty());
    }
    while tokens.len() > 0
        invariant
            tokens@.len() <= old(tokens)@.len(),
            acc@.len() > 0 ==> tokens@.len() < old(tokens)@.len(),
            capacities_bounded(stack@),
            spec_read_mutable_buffer(old(tokens)@, capacity) == spec_build(
                tokens@,
                capacities(stack@),
                directives_view(acc@),
            ),
        decreases tokens@.len(),
    {
        let ghost before = directives_view(acc@);
        match read_token(tokens) {
            Ok(d) => {
                let stop = capacity_step(&mut stack, &d);
                acc.push(d);
                proof {
                    assert(directives_view(acc@) =~= before.push(d@));
                }
                if stop {
                    return Ok(MutableBuffer::new_from(reverse_directives(acc)));
                }
            },
            Err(e) => {
                return Err(e);
            },
        }
    }
    Ok(MutableBuffer::new_from(reverse_directives(acc)))
}

/// Reads expressions up to the closing bracket or the end of the tokens.
fn read_list(tokens: &mut Vec<Token>, closer: Closer, acc: Vec<MutableBuffer>) -> (out: Result<
    Vec<MutableBuffer>,
    CreateError,
>)
    ensures
        match spec_read_list(old(tokens)@, closer, codes_view(acc@)) {
            Ok((list, rest)) => out is Ok && codes_view(out->Ok_0@) == list && final(tokens)@ == rest,
            Err(code) => out is Err && out->Err_0.code == code,
        },
        out is Ok ==> final(tokens)@.len() <= old(tokens)@.len(),
    decreases old(tokens)@.len(), 4nat,
{
    let mut list = acc;
    while tokens.len() > 0
        invariant
            tokens@.len() <= old(tokens)@.len(),
            spec_read_list(old(tokens)@, closer, codes_view(acc@)) == spec_read_list(
                tokens@,
                closer,
                codes_view(list@),
            ),
        decreases tokens@.len(),
    {
        if is_closer(&tokens[tokens.len() - 1], closer) {
            tokens.pop();
            return Ok(list);
        }
        let ghost before = codes_view(list@);
        match read_mutable_buffer(tokens, None) {
            Ok(code) => {
                list.push(code);
                proof {
                    assert(codes_view(list@) =~= before.push(code@));
                }
            },
            Err(e) => {
                return Err(e);
            },
        }
    }
    Ok(list)
}

fn read_if(tokens: &mut Vec<Token>) -> (out: Result<CreateDirective, CreateError>)
    ensures
        match spec_read_if(old(tokens)@) {
            Ok((d, rest)) => out is Ok && out->Ok_0@ == d && final(tokens)@ == rest,
            Err(code) => out is Err && out->Err_0.code == code,
        },
        out is Ok ==> final(tokens)@.len() <= old(tokens)@.len(),
    decreases old(tokens)@.len(), 5nat,
{
    let condition = match read_mutable_buffer(tokens, None) {
        Ok(m) => m,
        Err(e) => {
            return Err(e);
        },
    };
    let then = match read_mutable_buffer(tokens, None) {
        Ok(m) => m,
        Err(e) => {
            return Err(e);
        },
    };
    let has_else = tokens.len() > 0 && match &tokens[tokens.len() - 1] {
        Token::CFL(ControlFlow::ELS) => true,
        _ => false,
    };
    if has_else {
        tokens.pop();
        match read_mutable_buffer(tokens, None) {
            Ok(otherwise) => Ok(
                CreateDirective::CONTROL(Controller::IfElse(IfElse::new(condition, then, otherwise))),
            ),
            Err(e) => Err(e),
        }
    } else {
        Ok(CreateDirective::CONTROL(Controller::If(If::new(condition, then))))
    }
}

fn read_while(tokens: &mut Vec<Token>) -> (out: Result<CreateDirective, CreateError>)
    ensures
        match spec_read_while(old(tokens)@) {
            Ok((d, rest)) => out is Ok && out->Ok_0@ == d && final(tokens)@ == rest,
            Err(code) => out is Err && out->Err_0.code == code,
        },
        out is Ok ==> final(tokens)@.len() <= old(tokens)@.len(),
    decreases old(tokens)@.len(), 5nat,
{
    let condition = match read_mutable_buffer(tokens, None) {
        Ok(m) => m,
        Err(e) => {
            return Err(e);
        },
    };
    match read_mutable_buffer(tokens, None) {
        Ok(body) => Ok(CreateDirective::CONTROL(Controller::While(While::new(condition, body)))),
        Err(e) => Err(e),
    }
}

fn read_for(tokens: &mut Vec<Token>, each: bool) -> (out: Result<CreateDirective, CreateError>)
    ensures
        match spec_read_for(old(tokens)@, each) {
            Ok((d, rest)) => out is Ok && out->Ok_0@ == d && final(tokens)@ == rest,
            Err(code) => out is Err && out->Err_0.code == code,
        },
        out is Ok ==> final(tokens)@.len() <= old(tokens)@.len(),
    decreases old(tokens)@.len(), 5nat,
{
    let named = tokens.len() > 0 && match &tokens[tokens.len() - 1] {
        Token::SPC(Special::SNB(_)) => true,
        _ => false,
    };
    let identifier: Option<Identifier> = if named {
        match tokens.pop() {
            Some(Token::SPC(Special::SNB(i))) => Some(i),
            _ => None,
        }
    } else {
        None
    };
    let first = match read_mutable_buffer(tokens, None) {
        Ok(m) => m,
        Err(e) => {
            return Err(e);
        },
    };
    let name = match identifier {
        Some(i) => {
            let taken = take_name(i);
            if taken.is_none() {
                return Err(CreateError::new(SYNTAX, "Loop variable names can only be single layer"));
            }
            taken
        },
        None => None,
    };
    match read_mutable_buffer(tokens, None) {
        Ok(body) => if each {
            Ok(CreateDirective::CONTROL(Controller::ForIn(ForIn::new(first, name, body))))
        } else {
            Ok(CreateDirective::CONTROL(Controller::For(For::new(first, name, body))))
        },
        Err(e) => Err(e),
    }
}

fn read_index(tokens: &mut Vec<Token>, name: Identifier) -> (out: Result<CreateDirective, CreateError>)
    ensures
        match spec_read_index(old(tokens)@, path_view(name@)) {
            Ok((d, rest)) => out is Ok && out->Ok_0@ == d && final(tokens)@ == rest,
            Err(code) => out is Err && out->Err_0.code == code,
        },
        out is Ok ==> final(tokens)@.len() <= old(tokens)@.len(),
    decreases old(tokens)@.len(), 5nat,
{
    let index = match read_mutable_buffer(tokens, None) {
        Ok(m) => m,
        Err(e) => {
            return Err(e);
        },
    };
    if tokens.len() > 0 && is_closer(&tokens[tokens.len() - 1], Closer::Square) {
        tokens.pop();
        Ok(CreateDirective::READ_IAR(name, index))
    } else {
        let mut first: Vec<MutableBuffer> = Vec::new();
        first.push(index);
        proof {
            assert(codes_view(first@) =~= seq![index@]);
        }
        match read_list(tokens, Closer::Square, first) {
            Ok(list) => Ok(CreateDirective::READ_LIA(name, reverse_codes(list))),
            Err(e) => Err(e),
        }
    }
}

/// Reads a function literal after its opening bracket: the parameters up to
/// `)`, the return type and the body.
pub fn read_function(tokens: &mut Vec<Token>) -> (out: Result<Function, CreateError>)
    ensures
        match spec_read_function(old(tokens)@) {
            Ok((function, rest)) => out is Ok && out->Ok_0@ == function && final(tokens)@ == rest,
            Err(code) => out is Err && out->Err_0.code == code,
        },
        out is Ok ==> final(tokens)@.len() <= old(tokens)@.len(),
    decreases old(tokens)@.len(), 5nat,
{
    let mut params: Vec<(CreateType, Identifier)> = Vec::new();
    proof {
        assert(params@ =~= Seq::empty());
    }
    let mut closed = false;
    while !closed && tokens.len() > 0
        invariant
            tokens@.len() <= old(tokens)@.len(),
            spec_read_params(old(tokens)@, Seq::empty()) == if closed {
                Ok::<(Seq<(CreateType, Identifier)>, Seq<Token>), usize>((params@, tokens@))
            } else {
                spec_read_params(tokens@, params@)
            },
        decreases tokens@.len() + if closed { 0nat } else { 1nat },
    {
        match tokens.pop() {
            Some(Token::SPC(Special::CLR())) => {
                closed = true;
            },
            Some(Token::SPC(Special::SNB(n))) => {
                params.push((CreateType::BUF, n));
            },
            Some(Token::SPC(Special::SNA(n))) => {
                params.push((CreateType::ARR, n));
            },
            Some(Token::SPC(Special::SNS(n))) => {
                params.push((CreateType::SCP, n));
            },
            Some(Token::SPC(Special::SNF(n))) => {
                params.push((CreateType::FUN, n));
            },
            _ => {
                return Err(CreateError::new(SYNTAX, "Function arguments must be a form of setter"));
            },
        }
    }
    let ghost declared = params@;
    let mut names: Vec<(CreateType, String)> = Vec::new();
    let mut i: usize = 0;
    while i < params.len()
        invariant
            i <= params.len(),
            params@ == declared,
            names@.len() == i,
            tokens@.len() <= old(tokens)@.len(),
            spec_read_params(old(tokens)@, Seq::empty()) == Ok::<
                (Seq<(CreateType, Identifier)>, Seq<Token>),
                usize,
            >((declared, tokens@)),
            forall|j: int| 0 <= j < i ==> single_name((#[trigger] declared[j]).1) is Some,
            forall|j: int|
                0 <= j < i ==> (#[trigger] names@[j]).0 == declared[j].0 && names@[j].1@ == declared[j].1@[0]@,
        decreases params.len() - i,
    {
        if params[i].1.len() != 1 {
            proof {
                assert(single_name(declared[i as int].1) is None);
            }
            return Err(CreateError::new(SYNTAX, "Function arguments can only be first layer names"));
        }
        names.push((params[i].0, params[i].1[0].clone()));
        i = i + 1;
    }
    proof {
        assert(params_view(names@) =~= params_names(declared));
    }
    let returntype = match tokens.pop() {
        Some(Token::TYP(t)) => t,
        Some(_) => {
            return Err(CreateError::new(SYNTAX, "Expected type statement after function declaration"));
        },
        None => {
            return Err(CreateError::new(FORMAT, "Expected a return type in function declaration"));
        },
    };
    match read_mutable_buffer(tokens, None) {
        Ok(body) => Ok(Function::new(names, body, returntype)),
        Err(e) => Err(e),
    }
}

/// Reads a scope literal after its opening `|`: the fields up to the closing
/// `|`.
pub fn read_scope(tokens: &mut Vec<Token>) -> (out: Result<ScopePrototype, CreateError>)
    ensures
        match spec_read_scope(old(tokens)@, Seq::empty()) {
            Ok((fields, rest)) => out is Ok && fields_view(out->Ok_0.mutbuffers@) == fields && final(tokens)@
                == rest,
            Err(code) => out is Err && out->Err_0.code == code,
        },
        out is Ok ==> final(tokens)@.len() <= old(tokens)@.len(),
    decreases old(tokens)@.len(), 5nat,
{
    let mut scope = ScopePrototype::new();
    while tokens.len() > 0
        invariant
            tokens@.len() <= old(tokens)@.len(),
            spec_read_scope(old(tokens)@, Seq::empty()) == spec_read_scope(
                tokens@,
                fields_view(scope.mutbuffers@),
            ),
        decreases tokens@.len(),
    {
        let (name, ty) = match tokens.pop() {
            Some(Token::SPC(Special::PIP())) => {
                return Ok(scope);
            },
            Some(Token::SPC(Special::SNB(n))) => (n, CreateType::BUF),
            Some(Token::SPC(Special::SNA(n))) => (n, CreateType::ARR),
            Some(Token::SPC(Special::SNF(n))) => (n, CreateType::FUN),
            Some(Token::SPC(Special::SNS(n))) => (n, CreateType::SCP),
            _ => {
                return Err(
                    CreateError::new(SYNTAX, "Expected setter or closing pipe in scope declaration"),
                );
            },
        };
        let field = match take_name(name) {
            Some(f) => f,
            None => {
                return Err(CreateError::new(SYNTAX, "Scopes can only have single level value names"));
            },
        };
        match read_mutable_buffer(tokens, None) {
            Ok(code) => {
                scope.insert(field, code, ty);
            },
            Err(e) => {
                return Err(e);
            },
        }
    }
    Ok(scope)
}

/// The expressions of `list` in reverse order.
pub fn reverse_codes(list: Vec<MutableBuffer>) -> (out: Vec<MutableBuffer>)
    ensures
        codes_view(out@) == codes_view(list@).reverse(),
{
    let mut list = list;
    let mut out: Vec<MutableBuffer> = Vec::new();
    let ghost all = codes_view(list@);
    while list.len() > 0
        invariant
            list@.len() + out@.len() == all.len(),
            codes_view(list@) == all.subrange(0, list@.len() as int),
            forall|i: int| 0 <= i < out@.len() ==> (#[trigger] codes_view(out@)[i]) == all[all.len() - 1 - i],
        decreases list.len(),
    {
        let ghost before = list@;
        let ghost done = out@;
        match list.pop() {
            Some(item) => {
                proof {
                    assert(codes_view(before)[before.len() - 1] == item@);
                    assert(codes_view(list@) =~= all.subrange(0, list@.len() as int));
                }
                out.push(item);
                proof {
                    assert forall|i: int| 0 <= i < out@.len() implies (#[trigger] codes_view(out@)[i]) == all[all.len()
                        - 1 - i] by {
                        if i < done.len() {
                            assert(codes_view(done)[i] == all[all.len() - 1 - i]);
                        }
                    }
                }
            },
            None => {},
        }
    }
    proof {
        assert(codes_view(out@) =~= all.reverse());
    }
    out
}

/// The directives of `list` in reverse order.
pub fn reverse_directives(list: Vec<CreateDirective>) -> (out: Vec<CreateDirective>)
    ensures
        directives_view(out@) == directives_view(list@).reverse(),
{
    let mut list = list;
    let mut out: Vec<CreateDirective> = Vec::new();
    let ghost all = directives_view(list@);
    while list.len() > 0
        invariant
            list@.len() + out@.len() == all.len(),
            directives_view(list@) == all.subrange(0, list@.len() as int),
            forall|i: int|
                0 <= i < out@.len() ==> (#[trigger] directives_view(out@)[i]) == all[all.len() - 1 - i],
        decreases list.len(),
    {
        let ghost before = list@;
        let ghost done = out@;
        match list.pop() {
            Some(item) => {
                proof {
                    assert(directives_view(before)[before.len() - 1] == item@);
                    assert(directives_view(list@) =~= all.subrange(0, list@.len() as int));
                }
                out.push(item);
                proof {
                    assert forall|i: int| 0 <= i < out@.len() implies (#[trigger] directives_view(out@)[i])
                        == all[all.len() - 1 - i] by {
                        if i < done.len() {
                            assert(directives_view(done)[i] == all[all.len() - 1 - i]);
                        }
                    }
                }
            },
            None => {},
        }
    }
    proof {
        assert(directives_view(out@) =~= all.reverse());
    }
    out
}

} // verus!
