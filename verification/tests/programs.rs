//! Whole programs, run by a small host that does the arithmetic and collects
//! the output.
use create_lang::instructions::{BinaryKind, Request, UnaryKind};
use create_lang::interpreter::{interpret_program, Action, Interpreter};
use create_lang::machine::Event;
use create_lang::model::CreateAny;
use create_lang::tokenizer::{split_lexemes, tokenize};

fn apply(request: Request, output: &mut String) -> u32 {
    match request {
        Request::Binary(kind, l, r) => {
            let a = f32::from_bits(l);
            let b = f32::from_bits(r);
            let v = match kind {
                BinaryKind::Add => a + b,
                BinaryKind::Sub => a - b,
                BinaryKind::Mul => a * b,
                BinaryKind::Div => a / b,
                BinaryKind::Rem => a % b,
                BinaryKind::Pow => a.powf(b),
                BinaryKind::Equal => if a == b { 1.0 } else { 0.0 },
                BinaryKind::Greater => if a > b { 1.0 } else { 0.0 },
                BinaryKind::Less => if a < b { 1.0 } else { 0.0 },
                BinaryKind::Or => if a == 1.0 || b == 1.0 { 1.0 } else { 0.0 },
                BinaryKind::And => if a == 1.0 && b == 1.0 { 1.0 } else { 0.0 },
            };
            v.to_bits()
        }
        Request::Unary(kind, x) => {
            let a = f32::from_bits(x);
            let v = match kind {
                UnaryKind::Sin => a.sin(),
                UnaryKind::Cos => a.cos(),
                UnaryKind::Tan => a.tan(),
                UnaryKind::Asin => a.asin(),
                UnaryKind::Acos => a.acos(),
                UnaryKind::Atan => a.atan(),
                UnaryKind::Sqrt => a.sqrt(),
                UnaryKind::Cbrt => a.cbrt(),
                UnaryKind::Not => if a != 0.0 { 0.0 } else { 1.0 },
                UnaryKind::PrintNumber => {
                    output.push_str(&format!("{}", a));
                    a
                }
                UnaryKind::PrintChar => {
                    let t = a.trunc();
                    output.push((t as u8) as char);
                    t
                }
            };
            v.to_bits()
        }
    }
}

struct Run {
    result: Result<(), usize>,
    output: String,
    interpreter: Interpreter,
}

fn run(source: &str) -> Run {
    let mut lexemes = split_lexemes(source);
    for lexeme in lexemes.iter_mut() {
        lexeme.number = lexeme.text.parse::<f32>().ok().map(|v| v.to_bits());
    }
    let tokens = match tokenize(&lexemes) {
        Ok(tokens) => tokens,
        Err(e) => {
            return Run { result: Err(e.code), output: String::new(), interpreter: interpret_program(Vec::new()) };
        }
    };
    let mut interpreter = interpret_program(tokens);
    let mut output = String::new();
    let mut event = Event::Resume;
    let mut steps = 0;
    let result = loop {
        steps += 1;
        assert!(steps < 1_000_000, "the program did not end");
        match interpreter.advance(event) {
            Action::Continue => event = Event::Resume,
            Action::Idle => break Ok(()),
            Action::Ask(request) => event = Event::Scalar(apply(request, &mut output)),
            Action::Failed(e) => break Err(e.code),
        }
    };
    Run { result, output, interpreter }
}

fn front(run: &Run) -> Option<f32> {
    match run.interpreter.machine.env.buffers.get_buf(0) {
        Some(bits) => Some(f32::from_bits(bits)),
        None => None,
    }
}

#[test]
fn print_forwards_sum() {
    let r = run(". + 2 3");
    assert_eq!(r.result, Ok(()));
    assert_eq!(r.output, "5");
    assert_eq!(front(&r), Some(5.0));
}

#[test]
fn trailing_print_waits_for_operand() {
    let r = run("+ 2 3 .");
    assert_eq!(r.result, Ok(()));
    assert_eq!(r.output, "");
    assert_eq!(front(&r), Some(5.0));
    assert_eq!(r.interpreter.machine.env.writers.last().map(|w| w.len()), Some(1));
}

#[test]
fn bound_scalar_read_twice() {
    let r = run("=x 7 . + ~x ~x");
    assert_eq!(r.result, Ok(()));
    assert_eq!(r.output, "14");
}

#[test]
fn for_loop_counts_from_zero() {
    let r = run("for =i 5 { . ~i }");
    assert_eq!(r.result, Ok(()));
    assert_eq!(r.output, "01234");
}

#[test]
fn if_else_takes_true_branch() {
    let r = run("if > 3 2 { . 1 } else { . 0 }");
    assert_eq!(r.result, Ok(()));
    assert_eq!(r.output, "1");
}

#[test]
fn if_else_takes_false_branch() {
    let r = run("if < 3 2 { . 1 } else { . 0 }");
    assert_eq!(r.result, Ok(()));
    assert_eq!(r.output, "0");
}

#[test]
fn array_element_by_index() {
    let r = run("=[]a [ 1 2 3 ] . ~a[ 1 ]");
    assert_eq!(r.result, Ok(()));
    assert_eq!(r.output, "2");
}

#[test]
fn recursive_function_fib() {
    let r = run(
        "=()fib ( =n ) buf { if < ~n 2 { ~n return } + ~fib( - ~n 1 ) ~fib( - ~n 2 ) return } . ~fib( 6 )",
    );
    assert_eq!(r.result, Ok(()));
    assert_eq!(r.output, "8");
}

#[test]
fn scope_fields_read_by_path() {
    let r = run("=||o | =x 3 =y 4 | . + ~o.x ~o.y . ~o.x . ~o.y");
    assert_eq!(r.result, Ok(()));
    assert_eq!(r.output, "734");
}

#[test]
fn null_function_pushes_nothing() {
    let r = run("=()f ( ) non { =x 1 ; } 9 ~f( )");
    assert_eq!(r.result, Ok(()));
    assert_eq!(front(&r), Some(9.0));
    assert!(matches!(r.interpreter.machine.env.buffers.get(1), None));
}

#[test]
fn values_view_is_accessible() {
    let r = run("[ 1 2 ]");
    assert_eq!(r.result, Ok(()));
    match r.interpreter.machine.env.buffers.get(0) {
        Some(CreateAny::ARR(items)) => assert_eq!(items.len(), 2),
        other => panic!("expected an array, found {:?}", other),
    }
}

fn outcome(source: &str) -> (Result<(), usize>, String) {
    let r = run(source);
    (r.result, r.output)
}

fn depth(run: &Run) -> usize {
    let mut n = 0;
    while run.interpreter.machine.env.buffers.get(n).is_some() {
        n += 1;
    }
    n
}

#[test]
fn complete_expression_leaves_one_value() {
    let r = run("+ 2 * 3 4");
    assert_eq!(r.result, Ok(()));
    assert_eq!(front(&r), Some(14.0));
    assert_eq!(depth(&r), 1);
    assert_eq!(r.interpreter.machine.env.writers.len(), 1);
    assert_eq!(r.interpreter.machine.env.writers[0].len(), 0);
    assert!(r.interpreter.is_finished());
}

#[test]
fn arithmetic_follows_the_host() {
    assert_eq!(outcome(". - 2 5"), (Ok(()), "-3".to_string()));
    assert_eq!(outcome(". * 1.5 4"), (Ok(()), "6".to_string()));
    assert_eq!(outcome(". / 1 4"), (Ok(()), "0.25".to_string()));
    assert_eq!(outcome(". / 1 0"), (Ok(()), "inf".to_string()));
    assert_eq!(outcome(". % 7.5 2"), (Ok(()), "1.5".to_string()));
    assert_eq!(outcome(". % -7 2"), (Ok(()), "-1".to_string()));
    assert_eq!(outcome(". ^ 2 10"), (Ok(()), "1024".to_string()));
    assert_eq!(outcome(". sqrt 16"), (Ok(()), "4".to_string()));
    assert_eq!(outcome(". cbrt 27"), (Ok(()), "3".to_string()));
    assert_eq!(outcome(". cos 0"), (Ok(()), "1".to_string()));
    assert_eq!(outcome(". + 0.1 0.2"), (Ok(()), format!("{}", 0.1f32 + 0.2f32)));
    assert_eq!(outcome(". + 16777216 1"), (Ok(()), "16777216".to_string()));
    assert_eq!(outcome(". sin pi"), (Ok(()), format!("{}", std::f32::consts::PI.sin())));
}

#[test]
fn comparisons_and_logic_need_no_host() {
    assert_eq!(outcome(". == 2 2 . == 2 3 . ! 0 . ! 5 . > 1 2 . < 1 2"), (Ok(()), "101001".to_string()));
    assert_eq!(outcome(". || 1 0 . || 0 0 . && 1 1 . && 1 2"), (Ok(()), "1010".to_string()));
    assert_eq!(outcome(". == nan nan . == 0 -0 . ! ! 1 . ! ! 0"), (Ok(()), "0110".to_string()));
}

#[test]
fn print_char_truncates_and_forwards() {
    let r = run(", 65.7 , 'z , \"ok");
    assert_eq!(r.result, Ok(()));
    assert_eq!(r.output, "Azo");
    assert_eq!(front(&r), Some(107.0));
    let r = run(", 66.9");
    assert_eq!(front(&r), Some(66.0));
}

#[test]
fn statements_share_the_writers() {
    let r = run("+ 2\n3 .\n7");
    assert_eq!(r.result, Ok(()));
    assert_eq!(r.output, "7");
    assert_eq!(front(&r), Some(7.0));
    assert_eq!(depth(&r), 2);
}

#[test]
fn reads_of_the_operand_stack() {
    let r = run("1 2 3 ~ ~2 ~0");
    assert_eq!(r.result, Ok(()));
    let got: Vec<f32> = (0..6)
        .map(|i| f32::from_bits(r.interpreter.machine.env.buffers.get_buf(i).unwrap()))
        .collect();
    assert_eq!(got, vec![2.0, 2.0, 3.0, 3.0, 2.0, 1.0]);
    assert_eq!(outcome("~"), (Err(4), String::new()));
    assert_eq!(outcome("1 ~1"), (Err(4), String::new()));
    assert_eq!(outcome("[ ] ~"), (Err(4), String::new()));
    let r = run("1 2 ; ; ;");
    assert_eq!(r.result, Ok(()));
    assert_eq!(depth(&r), 0);
}

#[test]
fn unknown_names_are_reported() {
    assert_eq!(outcome("~x"), (Err(6), String::new()));
    assert_eq!(outcome("=x 1 ~x.y"), (Err(3), String::new()));
    assert_eq!(outcome("=||o | | ~o.y"), (Err(6), String::new()));
    assert_eq!(outcome("~f( )"), (Err(6), String::new()));
    assert_eq!(outcome("=x 1 ~x( )"), (Err(3), String::new()));
}

#[test]
fn indexed_reads_check_kind_and_range() {
    assert_eq!(outcome("=[]a [ 4 5 6 ] . ~a[ 0 ] . ~a[ 2.9 ] . ~a[ -1 ]"), (Ok(()), "464".to_string()));
    assert_eq!(outcome("=[]a [ 4 5 6 ] ~a[ 3 ]"), (Err(3), String::new()));
    assert_eq!(outcome("=a 1 ~a[ 0 ]"), (Err(3), String::new()));
    assert_eq!(outcome("=[]a [ 4 ] ~a[ [ ] ]"), (Err(3), String::new()));
    assert_eq!(outcome("=[]a [ 4 ] ~a[ ; ]"), (Err(3), String::new()));
    assert_eq!(outcome("~a[ 0 ]"), (Err(6), String::new()));
    assert_eq!(outcome("=[]m [ [ 1 2 ] [ 3 4 ] ] . ~m[ 1 0 ] . ~m[ 0 1 ]"), (Ok(()), "32".to_string()));
    assert_eq!(outcome("=[]m [ [ 1 2 ] 7 ] ~m[ 1 0 ]"), (Err(3), String::new()));
    assert_eq!(outcome("=[]m [ [ 1 2 ] ] ~m[ 0 5 ]"), (Err(3), String::new()));
    assert_eq!(outcome("=[]m [ [ 1 2 ] ] ~m[ 4 0 ]"), (Err(3), String::new()));
    assert_eq!(outcome("=m 1 ~m[ 0 0 ]"), (Err(3), String::new()));
}

#[test]
fn indexed_read_in_an_expression_drops_the_front() {
    let r = run("=[]a [ 5 ] 9 ~a[ 0 ]");
    assert_eq!(r.result, Ok(()));
    assert_eq!(depth(&r), 3);
    let r = run("=[]a [ 5 ] ; { 9 ~a[ 0 ] }");
    assert_eq!(r.result, Ok(()));
    assert_eq!(front(&r), Some(5.0));
    assert_eq!(depth(&r), 1);
}

#[test]
fn arrays_hold_evaluated_elements() {
    let r = run("[ + 1 2 [ ] 4 ]");
    assert_eq!(r.result, Ok(()));
    match r.interpreter.machine.env.buffers.get(0) {
        Some(CreateAny::ARR(items)) => {
            assert_eq!(items.len(), 3);
            assert!(matches!(items[0], CreateAny::BUF(b) if f32::from_bits(b) == 3.0));
            assert!(matches!(&items[1], CreateAny::ARR(inner) if inner.is_empty()));
            assert!(matches!(items[2], CreateAny::BUF(b) if f32::from_bits(b) == 4.0));
        }
        other => panic!("expected an array, found {:?}", other),
    }
    assert_eq!(depth(&r), 1);
    assert_eq!(outcome("[ ; ]"), (Err(3), String::new()));
    assert_eq!(outcome("[ . 1 . 2 ]"), (Ok(()), "12".to_string()));
    assert_eq!(outcome("+ [ ] 1"), (Err(7), String::new()));
}

#[test]
fn binders_store_the_front_of_the_stack() {
    assert_eq!(outcome("=x + 1 2 . ~x"), (Ok(()), "3".to_string()));
    assert_eq!(outcome("=[]a [ 1 ] =[]b ~a . ~b[ 0 ]"), (Ok(()), "1".to_string()));
    assert_eq!(outcome("=[]a 5"), (Err(3), String::new()));
    assert_eq!(outcome("=x [ ]"), (Err(3), String::new()));
    assert_eq!(outcome("=()f 5"), (Err(3), String::new()));
    assert_eq!(outcome("=||s 5"), (Err(3), String::new()));
    assert_eq!(outcome("=()f ;"), (Err(3), String::new()));
    assert_eq!(outcome("=x"), (Err(3), String::new()));
    assert_eq!(outcome("=x )"), (Err(2), String::new()));
    let r = run("=x 5");
    assert_eq!(depth(&r), 1);
}

#[test]
fn binders_inside_expressions_take_what_follows() {
    assert_eq!(outcome("{ =x + 1 2 . ~x }"), (Ok(()), "3".to_string()));
    assert_eq!(outcome("{ =()f ( ) buf 4 . ~f( ) }"), (Ok(()), "4".to_string()));
    assert_eq!(outcome("{ =||s | =k 8 | . ~s.k }"), (Ok(()), "8".to_string()));
    assert_eq!(outcome("{ =[]a [ 6 ] . ~a[ 0 ] }"), (Ok(()), "6".to_string()));
}

#[test]
fn binding_modes_choose_the_frame() {
    assert_eq!(outcome("{ g=x 1 l=y 2 } . ~x ~y"), (Err(6), "1".to_string()));
    assert_eq!(outcome("{ =z 3 } ~z"), (Err(6), String::new()));
    assert_eq!(outcome("=x 1 { =x 2 } . ~x"), (Ok(()), "2".to_string()));
    assert_eq!(outcome("=x 1 { l=x 2 . ~x } . ~x"), (Ok(()), "21".to_string()));
    assert_eq!(outcome("{ g=[]a [ 7 ] } . ~a[ 0 ]"), (Ok(()), "7".to_string()));
    assert_eq!(outcome("{ l=[]a [ 7 ] . ~a[ 0 ] } ~a"), (Err(6), "7".to_string()));
}

#[test]
fn scopes_are_built_and_assigned_through_paths() {
    assert_eq!(outcome("=||o | =x 3 | =o.y 4 =o.x 5 . + ~o.x ~o.y"), (Ok(()), "9".to_string()));
    assert_eq!(
        outcome("=||o | =||i | =v 1 | | =o.i.w 2 . ~o.i.v . ~o.i.w"),
        (Ok(()), "12".to_string())
    );
    assert_eq!(outcome("=||o | =[]x 3 |"), (Err(3), String::new()));
    assert_eq!(outcome("=||o | =x ; |"), (Err(3), String::new()));
    assert_eq!(outcome("=||o | =x 3 | =o.x.y 1"), (Err(3), String::new()));
    assert_eq!(outcome("=q.y 1"), (Err(6), String::new()));
    assert_eq!(outcome("| =x . 1 =y . 2 |"), (Ok(()), "12".to_string()));
    assert_eq!(outcome("=||o | =x 1 =x 2 | . ~o.x"), (Ok(()), "2".to_string()));
}

#[test]
fn conditions_must_be_scalars() {
    assert_eq!(outcome("if [ ] { . 1 }"), (Err(5), String::new()));
    assert_eq!(outcome("if [ ] { . 1 } else { . 2 }"), (Err(5), String::new()));
    assert_eq!(outcome("while [ ] { }"), (Err(3), String::new()));
    assert_eq!(outcome("for [ ] { }"), (Err(3), String::new()));
    assert_eq!(outcome("forin 3 { }"), (Err(3), String::new()));
    assert_eq!(outcome("if 0 { . 1 }"), (Ok(()), String::new()));
    assert_eq!(outcome("if nan { . 1 }"), (Ok(()), "1".to_string()));
    assert_eq!(outcome("if -0 { . 1 } else { . 2 }"), (Ok(()), "2".to_string()));
}

#[test]
fn loops_run_in_their_own_frame() {
    assert_eq!(outcome("for 2.9 { . 1 }"), (Ok(()), "11".to_string()));
    assert_eq!(outcome("for -2 { . 1 }"), (Ok(()), String::new()));
    assert_eq!(outcome("for 0 { . 1 }"), (Ok(()), String::new()));
    assert_eq!(outcome("for =i 3 { } ~i"), (Err(6), String::new()));
    assert_eq!(outcome("for =i 2 { =k ~i } ~k"), (Err(6), String::new()));
    assert_eq!(outcome("=[]a [ 1 2 3 ] forin =v ~a { . ~v }"), (Ok(()), "123".to_string()));
    assert_eq!(outcome("forin =v [ ] { . ~v }"), (Ok(()), String::new()));
    assert_eq!(outcome("=n 3 while > ~n 0 { . ~n =n - ~n 1 }"), (Ok(()), "321".to_string()));
    assert_eq!(outcome("for 2 { for =j 2 { . ~j } }"), (Ok(()), "0101".to_string()));
}

#[test]
fn break_ends_the_nearest_loop() {
    assert_eq!(outcome("for =i 5 { if > ~i 2 { break } . ~i }"), (Ok(()), "012".to_string()));
    assert_eq!(outcome("=n 0 while 1 { =n + ~n 1 if > ~n 3 { break } } . ~n"), (Ok(()), "4".to_string()));
    assert_eq!(outcome("=[]a [ 1 2 3 ] forin =v ~a { . ~v break }"), (Ok(()), "1".to_string()));
    assert_eq!(outcome("for 2 { for 3 { . 1 break } . 2 }"), (Ok(()), "1212".to_string()));
    assert_eq!(outcome("=()f ( ) non { break } for 3 { . 1 ~f( ) . 2 }"), (Ok(()), "1".to_string()));
    assert_eq!(outcome("break"), (Err(11), String::new()));
    assert_eq!(outcome("{ . 1 break . 2 }"), (Err(11), "1".to_string()));
    assert_eq!(outcome("if 1 { break }"), (Err(11), String::new()));
    assert_eq!(outcome("=()f ( ) non { break } ~f( )"), (Err(11), String::new()));
    let r = run("{ { break } } 1");
    assert_eq!(r.result, Err(11));
    assert!(r.interpreter.is_finished());
    assert_eq!(r.interpreter.machine.env.scope.parents.len(), 0);
}

#[test]
fn return_ends_the_nearest_call() {
    assert_eq!(outcome("=()f ( ) buf { 1 return 2 } . ~f( )"), (Ok(()), "1".to_string()));
    assert_eq!(outcome("=()f ( ) buf { for =i 9 { if > ~i 3 { ~i return } } } . ~f( )"), (Ok(()), "4".to_string()));
    assert_eq!(outcome("=()f ( ) non { return } ~f( ) . 7"), (Ok(()), "7".to_string()));
    assert_eq!(outcome("return"), (Err(12), String::new()));
    assert_eq!(outcome("for 3 { return }"), (Err(12), String::new()));
    assert_eq!(outcome("{ [ return ] }"), (Err(12), String::new()));
}

#[test]
fn calls_bind_parameters_in_order() {
    assert_eq!(outcome("=()sub ( =a =b ) buf { - ~a ~b } . ~sub( 10 3 )"), (Ok(()), "7".to_string()));
    assert_eq!(outcome("=()f ( =a =b ) non { } ~f( . 1 . 2 )"), (Ok(()), "12".to_string()));
    assert_eq!(outcome("=()f ( =[]a ) buf ~a[ 1 ] . ~f( [ 4 5 ] )"), (Ok(()), "5".to_string()));
    assert_eq!(outcome("=()f ( =[]a ) non { } ~f( 1 )"), (Err(10), String::new()));
    assert_eq!(outcome("=()f ( =a ) non { } ~f( )"), (Err(10), String::new()));
    assert_eq!(outcome("=()f ( ) non { } ~f( 1 )"), (Err(10), String::new()));
    assert_eq!(outcome("=()f ( =a ) non { } ~f( ; )"), (Err(3), String::new()));
    assert_eq!(outcome("=()f ( ) non { 5 } ~f( )"), (Err(3), String::new()));
    assert_eq!(outcome("=()f ( ) buf { } ~f( )"), (Err(3), String::new()));
    assert_eq!(outcome("=()f ( ) arr { 5 } ~f( )"), (Err(3), String::new()));
    assert_eq!(outcome("=()g ( =()h ) buf ~h( 2 ) =()d ( =x ) buf * ~x 2 . ~g( ~d )"), (Ok(()), "4".to_string()));
}

#[test]
fn calls_see_the_callers_scope_and_keep_their_own() {
    assert_eq!(outcome("=k 5 =()f ( ) buf ~k . ~f( )"), (Ok(()), "5".to_string()));
    assert_eq!(outcome("=n 1 =()f ( =n ) buf ~n . ~f( 2 ) . ~n"), (Ok(()), "21".to_string()));
    assert_eq!(outcome("=()f ( =n ) non { =m ~n ; } ~f( 2 ) ~m"), (Err(6), String::new()));
    assert_eq!(outcome("=()f ( =n ) non { =m ~n } ~f( 2 )"), (Err(3), String::new()));
    let r = run("1 2 =()f ( ) buf { ~ ~1 9 } ~f( )");
    assert_eq!(r.result, Ok(()));
    assert_eq!(front(&r), Some(9.0));
    assert_eq!(depth(&r), 3);
}

#[test]
fn call_result_flows_into_writers() {
    assert_eq!(outcome("=()two ( ) buf 2 . + ~two( ) ~two( )"), (Ok(()), "4".to_string()));
    let r = run("=()f ( ) buf { + 1 } 5 ~f( )");
    assert_eq!(r.result, Err(3));
    assert_eq!(r.interpreter.machine.env.writers.len(), 1);
    assert_eq!(r.interpreter.machine.env.buffers.prev.len(), 0);
}

#[test]
fn builder_errors_end_the_program() {
    assert_eq!(outcome(". 1 }"), (Err(3), "1".to_string()));
    assert_eq!(outcome(". 1 ]"), (Err(3), "1".to_string()));
    assert_eq!(outcome(". 1 )"), (Err(2), "1".to_string()));
    assert_eq!(outcome(". 1 buf"), (Err(2), "1".to_string()));
    assert_eq!(outcome(". 1 else"), (Err(3), "1".to_string()));
    assert_eq!(outcome(". 1 hello"), (Err(2), String::new()));
    assert_eq!(outcome("( =a )"), (Err(2), String::new()));
    let r = run(". 1 } . 2");
    assert_eq!(r.result, Err(3));
    assert!(r.interpreter.is_finished());
}

#[test]
fn a_request_is_repeated_until_answered() {
    let lexemes = {
        let mut l = split_lexemes("+ 2 3");
        for lexeme in l.iter_mut() {
            lexeme.number = lexeme.text.parse::<f32>().ok().map(|v| v.to_bits());
        }
        l
    };
    let tokens = tokenize(&lexemes).ok().expect("tokens");
    let mut interpreter = interpret_program(tokens);
    assert!(matches!(interpreter.advance(Event::Scalar(1)), Action::Continue));
    assert!(matches!(interpreter.advance(Event::Resume), Action::Continue));
    let two = 2.0f32.to_bits();
    let three = 3.0f32.to_bits();
    for _ in 0..3 {
        match interpreter.advance(Event::Resume) {
            Action::Ask(Request::Binary(BinaryKind::Add, l, r)) => assert_eq!((l, r), (two, three)),
            _ => panic!("expected the request"),
        }
    }
    assert!(!interpreter.is_finished());
    assert!(matches!(interpreter.advance(Event::Scalar(77)), Action::Continue));
    assert!(matches!(interpreter.advance(Event::Scalar(5)), Action::Idle));
    assert!(matches!(interpreter.advance(Event::Resume), Action::Idle));
    assert_eq!(interpreter.machine.env.buffers.get_buf(0), Some(77));
    assert!(interpreter.machine.env.buffers.get(1).is_none());
    assert!(interpreter.is_finished());
}

#[test]
fn operators_come_before_their_operands() {
    let r = run("=x 7 +  ~x ~x .");
    assert_eq!((r.result.clone(), r.output.as_str()), (Ok(()), ""));
    assert_eq!(front(&r), Some(14.0));
    assert_eq!(r.interpreter.machine.env.writers[0].len(), 1);

    let r = run("=[]a [ 1 2 3 ] ~a[ 1 ] .");
    assert_eq!((r.result.clone(), r.output.as_str()), (Ok(()), ""));
    assert_eq!(front(&r), Some(2.0));
    assert_eq!(r.interpreter.machine.env.writers[0].len(), 1);

    assert_eq!(outcome("for =i 5 { ~i . }"), (Err(3), String::new()));
    assert_eq!(outcome("if > 3 2 { 1 . } else { 0 . }"), (Err(3), String::new()));
    assert_eq!(outcome("=o || =x 3 =y 4 | ~o.x ~o.y + . ."), (Err(3), String::new()));
    assert_eq!(
        outcome(
            "=()fib ( =n buf ) buf { if < ~n 2 { return ~n } return + ~fib( - ~n 1 ) ~fib( - ~n 2 ) }  ~fib( 6 ) ."
        ),
        (Err(3), String::new())
    );
}

#[test]
fn return_before_the_value_returns_nothing() {
    assert_eq!(outcome("=()f ( =n ) buf { return ~n } ~f( 1 )"), (Err(3), String::new()));
    assert_eq!(outcome("=()f ( =n ) buf { ~n return } . ~f( 1 )"), (Ok(()), "1".to_string()));
}

#[test]
fn long_loops_keep_the_stacks_small() {
    let r = run("=s 0 ; for =i 2000 { =s + ~s ~i ; } . ~s");
    assert_eq!(r.result, Ok(()));
    assert_eq!(r.output, "1999000");
    assert_eq!(depth(&r), 2);
    assert_eq!(r.interpreter.machine.env.buffers.get_buf(1), Some(2000.0f32.to_bits()));
    assert_eq!(r.interpreter.machine.env.scope.parents.len(), 0);
    assert_eq!(r.interpreter.machine.frames.len(), 0);
}

#[test]
fn expression_with_reads_leaves_one_value() {
    let r = run("=x 2 ; 5 + ~x * ~ ~0");
    assert_eq!(r.result, Ok(()));
    assert_eq!(front(&r), Some(27.0));
    assert_eq!(depth(&r), 2);
    assert_eq!(r.interpreter.machine.env.buffers.get_buf(1), Some(5.0f32.to_bits()));
    assert_eq!(r.interpreter.machine.env.writers[0].len(), 0);
}
