//! The machine driven directly, without tokens.
use create_lang::errors::CreateError;
use create_lang::instructions::{BinaryKind, BinaryOp, Instruction, Request};
use create_lang::interpreter::{run_directive, run_directive_tokenless, write_token, Action, Frame, Machine};
use create_lang::machine::Event;
use create_lang::model::{
    Controller, CreateAny, CreateDirective, CreateType, For, Function, FunctionCall, If, IfElse, MutableBuffer,
    ScopePrototype, Scoped, While,
};
use create_lang::tokenizer::{Command, Special, Token};

fn num(v: f32) -> CreateDirective {
    CreateDirective::WRITE_BUF(v.to_bits())
}

fn code(directives: Vec<CreateDirective>) -> MutableBuffer {
    MutableBuffer::new_from(directives)
}

fn settle(machine: &mut Machine, first: Action) -> Result<(), usize> {
    let mut action = first;
    let mut event = Event::Resume;
    for _ in 0..100_000 {
        match action {
            Action::Continue => event = Event::Resume,
            Action::Idle => return Ok(()),
            Action::Failed(e) => return Err(e.code),
            Action::Ask(Request::Binary(BinaryKind::Add, l, r)) => {
                event = Event::Scalar((f32::from_bits(l) + f32::from_bits(r)).to_bits())
            }
            Action::Ask(Request::Binary(BinaryKind::Mul, l, r)) => {
                event = Event::Scalar((f32::from_bits(l) * f32::from_bits(r)).to_bits())
            }
            Action::Ask(_) => panic!("an operation this host does not know"),
        }
        action = machine.step(event);
    }
    panic!("the machine did not come to rest");
}

fn front(machine: &Machine) -> Option<f32> {
    machine.env.buffers.get_buf(0).map(f32::from_bits)
}

fn path(segments: &[&str]) -> Vec<String> {
    segments.iter().map(|s| s.to_string()).collect()
}

#[test]
fn idle_machine_stays_idle() {
    let mut m = Machine::new();
    assert!(m.is_idle());
    assert!(matches!(m.step(Event::Resume), Action::Idle));
    assert!(matches!(m.step(Event::Scalar(3)), Action::Idle));
    assert!(matches!(run_directive_tokenless(&mut m, false), Action::Continue));
    assert!(m.is_idle());
    assert!(m.env.buffers.is_empty());
}

#[test]
fn directives_run_one_at_a_time() {
    let mut m = Machine::new();
    code(vec![num(3.0), CreateDirective::REMOVE_BUF(), num(2.0)]).evaluate(&mut m, false);
    assert!(matches!(run_directive_tokenless(&mut m, false), Action::Continue));
    assert_eq!(front(&m), Some(2.0));
    assert!(matches!(run_directive_tokenless(&mut m, false), Action::Continue));
    assert_eq!(front(&m), None);
    assert!(matches!(run_directive_tokenless(&mut m, false), Action::Continue));
    assert_eq!(front(&m), Some(3.0));
    assert!(matches!(run_directive_tokenless(&mut m, false), Action::Continue));
    assert_eq!(m.frames.len(), 1);
    assert!(matches!(m.step(Event::Resume), Action::Continue));
    assert!(m.is_idle());
    assert_eq!(front(&m), Some(3.0));
}

#[test]
fn raise_without_frames_fails() {
    let mut m = Machine::new();
    match m.raise(CreateError::new(42, "custom")) {
        Action::Failed(e) => {
            assert_eq!(e.code, 42);
            assert_eq!(e.message, "custom");
        }
        _ => panic!("the error vanished"),
    }
}

#[test]
fn scheduled_expression_runs_last_directive_first() {
    let mut m = Machine::new();
    let expression = code(vec![num(3.0), num(2.0), CreateDirective::WRITE_INS(Command::ADD.instruction())]);
    expression.evaluate(&mut m, false);
    assert!(!m.is_idle());
    assert_eq!(settle(&mut m, Action::Continue), Ok(()));
    assert_eq!(front(&m), Some(5.0));
    expression.evaluate_clone(&mut m, true);
    assert_eq!(settle(&mut m, Action::Continue), Ok(()));
    assert_eq!(front(&m), Some(5.0));
    assert!(m.env.buffers.get(2).is_none());
    assert_eq!(expression.len(), 3);
}

#[test]
fn empty_identifier_is_a_path_error() {
    let mut m = Machine::new();
    let nothing = MutableBuffer::new();
    let action = m.dispatch(&CreateDirective::READ_NBF(Vec::new()), false, &nothing, 0, 0);
    assert_eq!(settle(&mut m, action), Err(13));
    let rhs = code(vec![num(1.0)]);
    let action = m.dispatch(&CreateDirective::WRITE_NBF(Vec::new()), false, &rhs, 0, 1);
    assert_eq!(settle(&mut m, action), Err(13));
    assert!(m.is_idle());
}

#[test]
fn prefilled_writer_refuses_an_operand() {
    let mut m = Machine::new();
    let full = Instruction::Binary(BinaryOp { left: Some(1), right: Some(2), op: BinaryKind::Add });
    let nothing = MutableBuffer::new();
    let action = m.dispatch(&CreateDirective::WRITE_INS(full), false, &nothing, 0, 0);
    assert_eq!(settle(&mut m, action), Ok(()));
    let action = m.dispatch(&num(3.0), false, &nothing, 0, 0);
    assert_eq!(settle(&mut m, action), Err(3));
}

#[test]
fn controllers_start_on_the_machine() {
    let mut m = Machine::new();
    let yes = Controller::If(If::new(code(vec![num(1.0)]), code(vec![num(10.0)])));
    let action = yes.run(&mut m, false);
    assert_eq!(settle(&mut m, action), Ok(()));
    assert_eq!(front(&m), Some(10.0));

    let no = Controller::IfElse(IfElse::new(code(vec![num(0.0)]), code(vec![num(10.0)]), code(vec![num(20.0)])));
    let action = no.run(&mut m, false);
    assert_eq!(settle(&mut m, action), Ok(()));
    assert_eq!(front(&m), Some(20.0));

    let body = code(vec![
        CreateDirective::READ_NBF(path(&["i"])),
        CreateDirective::READ_BUF(),
        CreateDirective::WRITE_INS(Command::ADD.instruction()),
    ]);
    let sum = Controller::For(For::new(code(vec![num(4.0)]), Some("i".to_string()), body));
    assert_eq!(sum.return_count(), 0);
    m.env.buffers.push_buf(0.0f32.to_bits());
    m.env.buffers.push_buf(0.0f32.to_bits());
    let action = m.start(&sum);
    assert_eq!(settle(&mut m, action), Ok(()));
    assert_eq!(front(&m), Some(4.0 + 3.0 + 2.0 + 1.0 + 0.0));
    assert_eq!(m.env.scope.parents.len(), 0);

    let block = Controller::Scoped(Scoped::new(vec![code(vec![num(2.0)]), code(vec![num(1.0)])]));
    let action = block.run(&mut m, true);
    assert_eq!(settle(&mut m, action), Ok(()));
    assert_eq!(front(&m), Some(2.0));
    assert_eq!(m.env.buffers.get_buf(1).map(f32::from_bits), Some(1.0));

    let never = Controller::While(While::new(code(vec![num(0.0)]), code(vec![num(99.0)])));
    let action = never.run(&mut m, true);
    assert_eq!(settle(&mut m, action), Ok(()));
    assert_eq!(front(&m), Some(0.0));
}

#[test]
fn function_is_called_with_values() {
    let mut m = Machine::new();
    let body = code(vec![
        CreateDirective::READ_NBF(path(&["b"])),
        CreateDirective::READ_NBF(path(&["a"])),
        CreateDirective::WRITE_INS(Command::MUL.instruction()),
    ]);
    let f = Function::new(
        vec![(CreateType::BUF, "a".to_string()), (CreateType::BUF, "b".to_string())],
        body,
        CreateType::BUF,
    );
    let args = vec![CreateAny::BUF(6.0f32.to_bits()), CreateAny::BUF(7.0f32.to_bits())];
    let action = f.evaluate(args, &mut m, false);
    assert!(matches!(m.frames[0], Frame::CallBody { .. }));
    assert_eq!(m.env.writers.len(), 2);
    assert_eq!(m.env.buffers.prev.len(), 1);
    assert_eq!(m.env.scope.parents.len(), 1);
    assert_eq!(settle(&mut m, action), Ok(()));
    assert_eq!(front(&m), Some(42.0));
    assert_eq!(m.env.writers.len(), 1);
    assert_eq!(m.env.buffers.prev.len(), 0);
    assert_eq!(m.env.scope.parents.len(), 0);
    assert!(!m.env.scope.contains_key(&"a".to_string()));

    let action = f.evaluate(vec![CreateAny::BUF(0)], &mut m, false);
    assert_eq!(settle(&mut m, action), Err(10));
    let action = f.evaluate(vec![CreateAny::BUF(0), CreateAny::NUL()], &mut m, false);
    assert_eq!(settle(&mut m, action), Err(10));
    assert_eq!(m.env.scope.parents.len(), 0);

    m.env.scope.insert("mul".to_string(), CreateAny::FUN(f.duplicate()));
    let call = Controller::Call(FunctionCall::new(path(&["mul"]), vec![code(vec![num(5.0)]), code(vec![num(3.0)])]));
    assert_eq!(call.return_count(), 1);
    let action = call.run(&mut m, false);
    assert_eq!(settle(&mut m, action), Ok(()));
    assert_eq!(front(&m), Some(15.0));
}

#[test]
fn scope_is_constructed_field_by_field() {
    let mut m = Machine::new();
    let mut p = ScopePrototype::new();
    p.insert("x".to_string(), code(vec![num(1.0)]), CreateType::BUF);
    p.insert("v".to_string(), code(vec![CreateDirective::WRITE_ARR(Vec::new())]), CreateType::ARR);
    let action = p.construct(&mut m, false);
    assert_eq!(settle(&mut m, action), Ok(()));
    match m.env.buffers.get(0) {
        Some(CreateAny::SCP(s)) => {
            assert_eq!(s.entries.len(), 2);
            assert_eq!(s.entries[0].0, "x");
            assert!(matches!(s.entries[1].1, CreateAny::ARR(_)));
        }
        other => panic!("expected a scope, found {:?}", other),
    }
    assert!(m.env.buffers.get(1).is_none());
    let action = ScopePrototype::new().construct(&mut m, false);
    assert_eq!(settle(&mut m, action), Ok(()));
    assert!(matches!(m.env.buffers.get(0), Some(CreateAny::SCP(s)) if s.entries.is_empty()));
}

#[test]
fn token_driven_binder_reads_its_right_hand_side() {
    let mut m = Machine::new();
    let mut tokens = vec![
        Token::NUM(9.0f32.to_bits()),
        Token::NUM(2.0f32.to_bits()),
        Token::NUM(1.0f32.to_bits()),
        Token::CMD(Command::ADD),
        Token::SPC(Special::SNB(path(&["x"]))),
    ];
    let action = write_token(&mut tokens, &mut m);
    assert_eq!(tokens.len(), 1);
    assert_eq!(settle(&mut m, action), Ok(()));
    match m.env.scope.get(&"x".to_string()) {
        Ok(CreateAny::BUF(b)) => assert_eq!(f32::from_bits(b), 3.0),
        _ => panic!("x is not bound"),
    }
    let action = run_directive(CreateDirective::READ_NBF(path(&["x"])), &mut tokens, &mut m, true);
    assert_eq!(tokens.len(), 1);
    assert_eq!(settle(&mut m, action), Ok(()));
    assert_eq!(front(&m), Some(3.0));
    let mut none: Vec<Token> = Vec::new();
    let action = write_token(&mut none, &mut m);
    assert_eq!(settle(&mut m, action), Err(usize::MAX));
}

#[test]
fn unwinding_gives_back_what_frames_hold() {
    let mut m = Machine::new();
    m.env.buffers.push_buf(1);
    let inner = code(vec![CreateDirective::WRITE_ARR(vec![code(vec![CreateDirective::BREAK(), num(4.0)])])]);
    let block = Controller::Scoped(Scoped::new(vec![inner]));
    let action = m.start(&block);
    assert!(matches!(action, Action::Continue));
    for _ in 0..3 {
        assert!(matches!(m.step(Event::Resume), Action::Continue));
    }
    assert_eq!(m.frames.len(), 4);
    assert_eq!(m.env.buffers.prev.len(), 1);
    assert_eq!(m.env.writers.len(), 2);
    assert_eq!(m.env.scope.parents.len(), 1);
    assert_eq!(m.env.buffers.get_return_buf().map(f32::from_bits), Some(4.0));
    match m.step(Event::Resume) {
        Action::Failed(e) => assert_eq!(e.code, 11),
        _ => panic!("the break did not surface"),
    }
    assert!(m.is_idle());
    assert_eq!(m.env.buffers.prev.len(), 0);
    assert_eq!(m.env.writers.len(), 1);
    assert_eq!(m.env.scope.parents.len(), 0);
    assert_eq!(m.env.buffers.get_buf(0), Some(1));
    assert!(m.env.buffers.get(1).is_none());
}
