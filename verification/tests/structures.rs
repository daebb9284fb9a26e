//! Operand stacks, scopes and the flow primitive.
use create_lang::buffers::{Buffering, Buffers, PartitionedBuffers};
use create_lang::errors::CreateError;
use create_lang::instructions::{BinaryKind, BinaryOp, Instruction, Request, UnaryKind, UnaryOp};
use create_lang::interpreter::{Environment, Flow};
use create_lang::model::{CreateAny, CreateType, PrimitiveScope};
use create_lang::scope::{
    insert_at_identifier, insert_at_identifier_globally, insert_at_identifier_locally, resolve_identifier,
    resolve_identifier_immut, Scope, Scoping,
};

fn scalar(v: &Option<CreateAny>) -> Option<u32> {
    match v {
        Some(CreateAny::BUF(b)) => Some(*b),
        _ => None,
    }
}

fn name(s: &str) -> String {
    s.to_string()
}

fn path(segments: &[&str]) -> Vec<String> {
    segments.iter().map(|s| s.to_string()).collect()
}

fn bound(scope: &Scope, key: &str) -> Option<u32> {
    match scope.get(&name(key)) {
        Ok(CreateAny::BUF(b)) => Some(b),
        _ => None,
    }
}

fn in_frame(frame: &PrimitiveScope, key: &str) -> Option<u32> {
    match frame.get(&name(key)) {
        Ok(CreateAny::BUF(b)) => Some(b),
        _ => None,
    }
}

#[test]
fn buffers_push_and_pop_at_the_front() {
    let mut b = PartitionedBuffers::empty();
    assert!(b.is_empty());
    b.push_buf(1);
    b.push_buf(2);
    b.push(CreateAny::BUF(3));
    assert!(!b.is_empty());
    assert_eq!(b.get_buf(0), Some(3));
    assert_eq!(b.get_buf(1), Some(2));
    assert_eq!(b.get_buf(2), Some(1));
    assert_eq!(b.get_buf(3), None);
    assert_eq!(scalar(&b.pop()), Some(3));
    assert_eq!(b.get_buf(0), Some(2));
}

#[test]
fn typed_reads_refuse_other_kinds() {
    let mut b = PartitionedBuffers::empty();
    b.push_arr(vec![CreateAny::BUF(7), CreateAny::NUL()]);
    b.push_buf(5);
    assert_eq!(b.get_buf(0), Some(5));
    assert!(b.get_arr(0).is_none());
    assert_eq!(b.get_buf(1), None);
    assert_eq!(b.get_arr(1).map(|a| a.len()), Some(2));
    assert!(matches!(b.get(1), Some(CreateAny::ARR(_))));
    assert!(b.get(2).is_none());
}

#[test]
fn partition_hides_and_keeps_the_parent() {
    let mut parent = PartitionedBuffers::empty();
    parent.push_buf(10);
    parent.push_buf(20);
    let mut inside = PartitionedBuffers::new(parent);
    assert!(inside.get_return().is_none());
    assert!(inside.pop().is_none());
    assert_eq!(inside.get_buf(0), Some(20));
    assert_eq!(inside.get_buf(1), Some(10));
    inside.push_buf(1);
    inside.push_buf(2);
    assert_eq!(inside.get_buf(0), Some(2));
    assert_eq!(inside.get_buf(1), Some(1));
    assert_eq!(inside.get_buf(2), Some(20));
    assert_eq!(inside.get_buf(3), Some(10));
    assert_eq!(inside.get_buf(4), None);
    assert_eq!(scalar(&inside.get_return()), Some(2));
    assert_eq!(inside.get_return_buf(), Some(2));
    assert!(inside.get_return_arr().is_none());
    assert_eq!(scalar(&inside.pop()), Some(2));
    assert_eq!(scalar(&inside.pop()), Some(1));
    assert!(inside.pop().is_none());
    inside.push_buf(3);
    let back = inside.trunc();
    assert_eq!(back.prev.len(), 0);
    assert_eq!(back.get_buf(0), Some(20));
    assert_eq!(back.get_buf(1), Some(10));
    assert_eq!(back.get_buf(2), None);
}

#[test]
fn partition_in_place_matches_wrapping() {
    let mut b = PartitionedBuffers::empty();
    b.push_buf(10);
    b.enter();
    b.push_buf(1);
    b.enter();
    assert!(b.get_return().is_none());
    assert_eq!(b.get_buf(0), Some(1));
    assert_eq!(b.get_buf(1), Some(10));
    b.leave();
    assert_eq!(scalar(&b.get_return()), Some(1));
    b.leave();
    assert_eq!(b.get_buf(0), Some(10));
    assert_eq!(b.get_buf(1), None);
    b.leave();
    assert_eq!(b.get_buf(0), Some(10));
}

#[test]
fn combine_moves_the_overlay_front_first() {
    let mut parent = PartitionedBuffers::empty();
    parent.push_buf(10);
    let mut inside = PartitionedBuffers::new(parent);
    inside.push_buf(1);
    inside.push_buf(2);
    inside.push_buf(3);
    let joined = inside.combine();
    assert_eq!(joined.get_buf(0), Some(1));
    assert_eq!(joined.get_buf(1), Some(2));
    assert_eq!(joined.get_buf(2), Some(3));
    assert_eq!(joined.get_buf(3), Some(10));
    assert_eq!(joined.get_buf(4), None);
}

#[test]
fn primitive_scope_rebinds_in_place() {
    let mut s = PrimitiveScope::new();
    assert!(!s.contains_key(&name("x")));
    assert_eq!(s.get(&name("x")).err().map(|e| e.code), Some(6));
    assert!(s.insert(name("x"), CreateAny::BUF(1)).is_none());
    assert!(s.insert(name("y"), CreateAny::BUF(2)).is_none());
    assert_eq!(scalar(&s.insert(name("x"), CreateAny::BUF(3))), Some(1));
    assert_eq!(s.entries.len(), 2);
    assert_eq!(in_frame(&s, "x"), Some(3));
    assert_eq!(in_frame(&s, "y"), Some(2));
    assert!(s.contains_key(&name("y")));
}

#[test]
fn local_insert_shadows_ancestors() {
    let mut root = Scope::root();
    root.insert(name("x"), CreateAny::BUF(1));
    let mut child = Scope::new(root);
    assert_eq!(bound(&child, "x"), Some(1));
    child.insert_locally(name("x"), CreateAny::BUF(2));
    assert_eq!(bound(&child, "x"), Some(2));
    let root = child.leave();
    assert_eq!(bound(&root, "x"), Some(1));
}

#[test]
fn global_insert_reaches_the_root() {
    let mut chain = Scope::new(Scope::new(Scope::root()));
    chain.insert_globally(name("g"), CreateAny::BUF(9));
    assert!(chain.contains_key(&name("g")));
    assert!(!chain.scope.contains_key(&name("g")));
    assert!(chain.parents[0].contains_key(&name("g")));
    assert!(!chain.parents[1].contains_key(&name("g")));
    let root = chain.leave().leave();
    assert_eq!(bound(&root, "g"), Some(9));
    let mut alone = Scope::root();
    alone.insert_globally(name("h"), CreateAny::BUF(3));
    assert_eq!(bound(&alone, "h"), Some(3));
}

#[test]
fn normal_insert_rewrites_the_outermost_holder() {
    let mut chain = Scope::root();
    chain.insert(name("x"), CreateAny::BUF(1));
    chain.push_frame();
    chain.insert_locally(name("x"), CreateAny::BUF(2));
    chain.push_frame();
    chain.insert(name("x"), CreateAny::BUF(3));
    chain.insert(name("fresh"), CreateAny::BUF(4));
    assert_eq!(in_frame(&chain.parents[0], "x"), Some(3));
    assert_eq!(in_frame(&chain.parents[1], "x"), Some(2));
    assert!(!chain.scope.contains_key(&name("x")));
    assert_eq!(in_frame(&chain.scope, "fresh"), Some(4));
    assert_eq!(bound(&chain, "x"), Some(2));
    chain.pop_frame();
    chain.pop_frame();
    chain.pop_frame();
    assert_eq!(bound(&chain, "x"), Some(3));
    assert!(!chain.contains_key(&name("fresh")));
    assert_eq!(chain.get(&name("fresh")).err().map(|e| e.code), Some(6));
}

#[test]
fn paths_walk_through_scope_values() {
    let mut inner = PrimitiveScope::new();
    inner.insert(name("c"), CreateAny::BUF(5));
    let mut outer = PrimitiveScope::new();
    outer.insert(name("b"), CreateAny::SCP(inner));
    outer.insert(name("n"), CreateAny::BUF(1));
    let mut chain = Scope::root();
    chain.insert(name("a"), CreateAny::SCP(outer));
    chain.push_frame();

    assert!(matches!(resolve_identifier(&path(&["a", "b", "c"]), &chain), Ok(CreateAny::BUF(5))));
    assert!(matches!(resolve_identifier_immut(&path(&["a", "b"]), &chain), Ok(CreateAny::SCP(_))));
    assert_eq!(resolve_identifier(&path(&[]), &chain).err().map(|e| e.code), Some(13));
    assert_eq!(resolve_identifier(&path(&["z"]), &chain).err().map(|e| e.code), Some(6));
    assert_eq!(resolve_identifier(&path(&["a", "z"]), &chain).err().map(|e| e.code), Some(6));
    assert_eq!(resolve_identifier(&path(&["a", "n", "c"]), &chain).err().map(|e| e.code), Some(3));

    assert!(matches!(insert_at_identifier(path(&["a", "b", "d"]), CreateAny::BUF(6), &mut chain), Ok(None)));
    assert!(matches!(resolve_identifier(&path(&["a", "b", "d"]), &chain), Ok(CreateAny::BUF(6))));
    assert!(matches!(resolve_identifier(&path(&["a", "b", "c"]), &chain), Ok(CreateAny::BUF(5))));
    assert!(matches!(
        insert_at_identifier_locally(path(&["a", "b", "c"]), CreateAny::BUF(7), &mut chain),
        Ok(Some(CreateAny::BUF(5)))
    ));
    assert!(matches!(resolve_identifier(&path(&["a", "b", "c"]), &chain), Ok(CreateAny::BUF(7))));
    assert!(!chain.scope.contains_key(&name("a")));

    let refused = |identifier: &[&str], chain: &mut Scope| {
        insert_at_identifier(path(identifier), CreateAny::BUF(0), chain).err().map(|e| e.code)
    };
    assert_eq!(refused(&["a", "n", "x"], &mut chain), Some(3));
    assert_eq!(refused(&["q", "x"], &mut chain), Some(6));
    assert_eq!(refused(&[], &mut chain), Some(13));
    assert!(matches!(resolve_identifier(&path(&["a", "n"]), &chain), Ok(CreateAny::BUF(1))));
}

#[test]
fn single_segment_assignment_follows_the_mode() {
    let mut chain = Scope::root();
    chain.push_frame();
    assert!(matches!(insert_at_identifier_globally(path(&["g"]), CreateAny::BUF(1), &mut chain), Ok(None)));
    assert!(matches!(insert_at_identifier_locally(path(&["l"]), CreateAny::BUF(2), &mut chain), Ok(None)));
    assert!(matches!(
        insert_at_identifier(path(&["g"]), CreateAny::BUF(3), &mut chain),
        Ok(Some(CreateAny::BUF(1)))
    ));
    assert!(matches!(insert_at_identifier(path(&["n"]), CreateAny::BUF(4), &mut chain), Ok(None)));
    assert!(matches!(
        insert_at_identifier_locally(path(&["g"]), CreateAny::BUF(5), &mut chain),
        Ok(None)
    ));
    assert!(matches!(
        insert_at_identifier_globally(path(&["g"]), CreateAny::BUF(6), &mut chain),
        Ok(Some(CreateAny::BUF(3)))
    ));
    assert_eq!(in_frame(&chain.parents[0], "g"), Some(6));
    assert_eq!(in_frame(&chain.scope, "g"), Some(5));
    assert_eq!(in_frame(&chain.scope, "l"), Some(2));
    assert_eq!(in_frame(&chain.scope, "n"), Some(4));
    assert!(!chain.parents[0].contains_key(&name("l")));
}

#[test]
fn write_without_writers_is_a_push() {
    let mut env = Environment::new();
    assert!(matches!(create_lang::interpreter::write(&mut env, CreateAny::BUF(4), true), Flow::Next));
    assert!(matches!(create_lang::interpreter::write(&mut env, CreateAny::ARR(Vec::new()), false), Flow::Next));
    assert!(matches!(env.buffers.get(0), Some(CreateAny::ARR(_))));
    assert_eq!(env.buffers.get_buf(1), Some(4));
    assert!(env.buffers.get(2).is_none());
    assert_eq!(env.writers.len(), 1);
    assert_eq!(env.writers[0].len(), 0);
}

#[test]
fn write_fills_the_front_writer() {
    let mut env = Environment::new();
    env.push_writer(Instruction::Unary(UnaryOp::new(UnaryKind::Not)));
    env.push_writer(Instruction::Binary(BinaryOp::new(BinaryKind::Less)));
    let one = 1.0f32.to_bits();
    let two = 2.0f32.to_bits();
    assert!(matches!(create_lang::interpreter::write(&mut env, CreateAny::BUF(one), false), Flow::Next));
    assert_eq!(env.writers[0].len(), 2);
    assert!(env.buffers.is_empty());
    assert!(matches!(create_lang::interpreter::write(&mut env, CreateAny::BUF(two), false), Flow::Next));
    assert_eq!(env.writers[0].len(), 0);
    assert_eq!(env.buffers.get_buf(0), Some(0.0f32.to_bits()));
    assert!(env.buffers.get(1).is_none());
}

#[test]
fn write_asks_for_arithmetic() {
    let mut env = Environment::new();
    env.push_writer(Instruction::Unary(UnaryOp::new(UnaryKind::PrintNumber)));
    env.push_writer(Instruction::Binary(BinaryOp::new(BinaryKind::Add)));
    assert!(matches!(create_lang::interpreter::write(&mut env, CreateAny::BUF(2), false), Flow::Next));
    match create_lang::interpreter::write(&mut env, CreateAny::BUF(3), false) {
        Flow::Ask(Request::Binary(BinaryKind::Add, 2, 3)) => {}
        _ => panic!("expected a request for the sum"),
    }
    assert_eq!(env.writers[0].len(), 1);
    assert!(env.buffers.is_empty());
    match create_lang::interpreter::write(&mut env, CreateAny::BUF(5), false) {
        Flow::Ask(Request::Unary(UnaryKind::PrintNumber, 5)) => {}
        _ => panic!("expected a request to print"),
    }
    assert_eq!(env.writers[0].len(), 0);
    assert!(matches!(create_lang::interpreter::write(&mut env, CreateAny::BUF(5), false), Flow::Next));
    assert_eq!(env.buffers.get_buf(0), Some(5));
}

#[test]
fn write_refuses_what_is_no_scalar() {
    let mut env = Environment::new();
    env.push_writer(Instruction::Binary(BinaryOp::new(BinaryKind::Add)));
    match create_lang::interpreter::write(&mut env, CreateAny::ARR(Vec::new()), false) {
        Flow::Throw(e) => assert_eq!(e.code, 7),
        _ => panic!("an array filled a slot"),
    }
    assert_eq!(env.writers[0].len(), 1);
    assert!(env.buffers.is_empty());
}

#[test]
fn partitions_of_the_environment_nest() {
    let mut env = Environment::new();
    env.buffers.push_buf(1);
    env.push_writer(Instruction::Binary(BinaryOp::new(BinaryKind::Add)));
    env.enter();
    assert_eq!(env.writers.len(), 2);
    assert!(matches!(create_lang::interpreter::write(&mut env, CreateAny::BUF(8), false), Flow::Next));
    assert_eq!(env.buffers.get_return_buf(), Some(8));
    env.exit();
    assert_eq!(env.writers.len(), 1);
    assert_eq!(env.writers[0].len(), 1);
    assert_eq!(env.buffers.get_buf(0), Some(1));
    assert!(env.buffers.get(1).is_none());
}

#[test]
fn types_match_their_values() {
    let values = [
        (CreateType::BUF, CreateAny::BUF(0)),
        (CreateType::ARR, CreateAny::ARR(Vec::new())),
        (CreateType::SCP, CreateAny::SCP(PrimitiveScope::new())),
        (CreateType::NUL, CreateAny::NUL()),
    ];
    for (i, (ty, _)) in values.iter().enumerate() {
        for (j, (_, value)) in values.iter().enumerate() {
            assert_eq!(ty.matches(value), i == j);
            assert_eq!(ty.same(&value.get_type()), i == j);
        }
    }
    assert!(!CreateType::FUN.matches(&CreateAny::BUF(0)));
}

#[test]
fn deep_copies_are_independent() {
    let mut inner = PrimitiveScope::new();
    inner.insert(name("k"), CreateAny::ARR(vec![CreateAny::BUF(1), CreateAny::BUF(2)]));
    let first = CreateAny::SCP(inner);
    let copy = first.duplicate();
    match (first, copy) {
        (CreateAny::SCP(mut a), CreateAny::SCP(b)) => {
            a.insert(name("k"), CreateAny::NUL());
            match b.get(&name("k")) {
                Ok(CreateAny::ARR(items)) => {
                    assert_eq!(items.len(), 2);
                    assert!(matches!(items[1], CreateAny::BUF(2)));
                }
                _ => panic!("the copy lost its array"),
            }
        }
        _ => panic!("the copy changed kind"),
    }
}

#[test]
fn user_messages_follow_the_code() {
    let texts = [
        (0, "Huh, that's a toughie. You've got an error with no error!"),
        (1, "There was an internal compiler error; run with -d to see a more detailed report."),
        (2, "There was improper formatting in the source code."),
        (3, "There was a syntax error in the source code."),
        (4, "We were not able to access the buffer at a specified index."),
        (5, "There was an unfilled value in an instruction."),
        (6, "There was an uninstantiated named buffer."),
        (7, "Tried to write incompatible type."),
        (8, "Tried to print a floating point char."),
        (9, "Improper condition for control flow statement."),
        (10, "Mistyped argument for function."),
        (11, "Unexpected break statement."),
        (12, "Unexpected return statement."),
        (usize::MAX, "Something went wrong."),
        (13, "Huh, we weren't able to diagnose the issue, but there was an error somewhere in here."),
        (77, "Huh, we weren't able to diagnose the issue, but there was an error somewhere in here."),
    ];
    for (code, text) in texts {
        let e = CreateError::new(code, "details");
        assert_eq!(e.user_message(), text);
        assert_eq!(e.message, "details");
        let copy = e.duplicate();
        assert_eq!(copy.code, code);
        assert_eq!(copy.message, "details");
    }
}

fn fill<B: Buffering>(stack: &mut B) -> (Option<u32>, usize, bool) {
    Buffering::push_buf(stack, 1);
    Buffering::push_arr(stack, vec![CreateAny::BUF(9)]);
    Buffering::push(stack, CreateAny::BUF(3));
    let popped = scalar(&Buffering::pop(stack));
    let second = Buffering::get_buf(stack, 1);
    assert!(Buffering::get_arr(stack, 1).is_none());
    assert_eq!(Buffering::get_arr(stack, 0).map(|a| a.len()), Some(1));
    assert!(Buffering::get(stack, 0).is_some());
    assert_eq!(popped, Some(3));
    (second, Buffering::len(stack), Buffering::is_empty(stack))
}

#[test]
fn both_kinds_of_stack_behave_alike() {
    let mut plain: Buffers = Buffers::new();
    assert!(Buffering::is_empty(&plain));
    assert_eq!(Buffering::len(&plain), 0);
    assert!(Buffering::pop(&mut plain).is_none());
    assert_eq!(fill(&mut plain), (Some(1), 2, false));
    assert_eq!(Buffering::get_buf(&plain, 2), None);

    let mut parent = PartitionedBuffers::empty();
    parent.push_buf(7);
    let mut layered = PartitionedBuffers::new(parent);
    assert!(!Buffering::is_empty(&layered));
    assert_eq!(Buffering::len(&layered), 1);
    assert_eq!(fill(&mut layered), (Some(1), 3, false));
    assert_eq!(Buffering::get_buf(&layered, 2), Some(7));
    assert_eq!(Buffering::get_buf(&layered, 3), None);
}

fn bind_three<S: Scoping>(scope: &mut S) -> (&'static str, Option<u32>) {
    assert!(Scoping::insert(scope, name("a"), CreateAny::BUF(1)).is_none());
    assert!(Scoping::insert_locally(scope, name("b"), CreateAny::BUF(2)).is_none());
    assert!(Scoping::insert_globally(scope, name("c"), CreateAny::BUF(3)).is_none());
    assert!(Scoping::contains_key(scope, &name("c")));
    assert!(!Scoping::contains_key(scope, &name("d")));
    assert_eq!(Scoping::get(scope, &name("d")).err().map(|e| e.code), Some(6));
    assert!(matches!(Scoping::get_immut(scope, &name("b")), Ok(CreateAny::BUF(2))));
    let before = scalar(&Scoping::insert(scope, name("a"), CreateAny::BUF(4)));
    (Scoping::scope_type(scope), before)
}

#[test]
fn both_kinds_of_scope_behave_alike() {
    let mut frame = PrimitiveScope::new();
    assert_eq!(bind_three(&mut frame), ("primitive", Some(1)));
    assert_eq!(frame.entries.len(), 3);

    let mut chain = Scope::new(Scope::root());
    assert_eq!(bind_three(&mut chain), ("regular", Some(1)));
    assert_eq!(chain.scope.entries.len(), 2);
    assert_eq!(chain.parents[0].entries.len(), 1);
    assert_eq!(in_frame(&chain.parents[0], "c"), Some(3));
    assert_eq!(in_frame(&chain.scope, "a"), Some(4));
}
