//! Lexemes, tokens and the expression builder.
use create_lang::builder::{read_function, read_mutable_buffer, read_scope, read_token, reverse_codes};
use create_lang::instructions::{BinaryKind, Instruction, UnaryKind};
use create_lang::interpreter::read_mutable_buffer_tokenless;
use create_lang::model::{Controller, CreateDirective, CreateType, MutableBuffer, ScopePrototype};
use create_lang::tokenizer::{
    classify, named_token, split_lexemes, split_path, tokenize, Command, ControlFlow, Lexeme, Shape, Special,
    Token,
};
use create_lang::utils::{is_whitespace, parse_index, read_char, string_of, to_chars};

fn lex(source: &str) -> Vec<Lexeme> {
    let mut lexemes = split_lexemes(source);
    for lexeme in lexemes.iter_mut() {
        lexeme.number = lexeme.text.parse::<f32>().ok().map(|v| v.to_bits());
    }
    lexemes
}

fn tokens(source: &str) -> Vec<Token> {
    match tokenize(&lex(source)) {
        Ok(t) => t,
        Err(e) => panic!("error {} in {:?}", e.code, source),
    }
}

fn stack(source: &str) -> Vec<Token> {
    let mut t = tokens(source);
    t.reverse();
    t
}

fn error_of(source: &str) -> Option<usize> {
    tokenize(&lex(source)).err().map(|e| e.code)
}

fn build(source: &str, capacity: Option<i32>) -> (Result<MutableBuffer, usize>, usize) {
    let mut t = stack(source);
    let out = read_mutable_buffer(&mut t, capacity).map_err(|e| e.code);
    (out, t.len())
}

fn show(code: &MutableBuffer) -> Vec<String> {
    code.0.iter().map(|d| describe(d)).collect()
}

fn describe(d: &CreateDirective) -> String {
    match d {
        CreateDirective::READ_BUF() => "top".to_string(),
        CreateDirective::READ_IBF(i) => format!("at{}", i),
        CreateDirective::READ_IAR(n, m) => format!("index({},{:?})", n.join("."), show(m)),
        CreateDirective::READ_LIA(n, ms) => {
            format!("long({},{:?})", n.join("."), ms.iter().map(show).collect::<Vec<_>>())
        }
        CreateDirective::READ_NBF(n) => format!("read({})", n.join(".")),
        CreateDirective::WRITE_INS(Instruction::Binary(b)) => format!("{:?}", b.op),
        CreateDirective::WRITE_INS(Instruction::Unary(u)) => format!("{:?}", u.op),
        CreateDirective::WRITE_BUF(b) => format!("{}", f32::from_bits(*b)),
        CreateDirective::WRITE_ARR(ms) => format!("array({:?})", ms.iter().map(show).collect::<Vec<_>>()),
        CreateDirective::WRITE_FUN(f) => format!(
            "function({:?},{:?},{:?})",
            f.params.iter().map(|p| format!("{:?} {}", p.0, p.1)).collect::<Vec<_>>(),
            f.returntype,
            show(&f.mutbuffer)
        ),
        CreateDirective::WRITE_SCP(p) => format!(
            "scope({:?})",
            p.mutbuffers.iter().map(|f| format!("{} {:?} {:?}", f.0, f.1, show(&f.2))).collect::<Vec<_>>()
        ),
        CreateDirective::WRITE_NBF(n) => format!("bind({})", n.join(".")),
        CreateDirective::WRITE_NAR(n) => format!("bind[]({})", n.join(".")),
        CreateDirective::WRITE_NSC(n) => format!("bind||({})", n.join(".")),
        CreateDirective::WRITE_NFN(n) => format!("bind()({})", n.join(".")),
        CreateDirective::WRITE_GNB(n) => format!("global({})", n.join(".")),
        CreateDirective::WRITE_GNA(n) => format!("global[]({})", n.join(".")),
        CreateDirective::WRITE_LNB(n) => format!("local({})", n.join(".")),
        CreateDirective::WRITE_LNA(n) => format!("local[]({})", n.join(".")),
        CreateDirective::CONTROL(c) => match c {
            Controller::If(i) => format!("if({:?},{:?})", show(&i.condition), show(&i.mutbuffer)),
            Controller::IfElse(i) => format!(
                "ifelse({:?},{:?},{:?})",
                show(&i.condition),
                show(&i.ifmutbuffer),
                show(&i.elsemutbuffer)
            ),
            Controller::For(f) => {
                format!("for({:?},{:?},{:?})", show(&f.times), f.identifier, show(&f.mutbuffer))
            }
            Controller::ForIn(f) => {
                format!("forin({:?},{:?},{:?})", show(&f.value), f.identifier, show(&f.mutbuffer))
            }
            Controller::While(w) => format!("while({:?},{:?})", show(&w.condition), show(&w.mutbuffer)),
            Controller::Scoped(b) => format!("block({:?})", b.mutbuffers.iter().map(show).collect::<Vec<_>>()),
            Controller::Call(c) => {
                format!("call({},{:?})", c.name.join("."), c.params.iter().map(show).collect::<Vec<_>>())
            }
        },
        CreateDirective::BREAK() => "break".to_string(),
        CreateDirective::RETURN() => "return".to_string(),
        CreateDirective::REMOVE_BUF() => "drop".to_string(),
    }
}

fn built(source: &str, capacity: Option<i32>) -> Vec<String> {
    match build(source, capacity).0 {
        Ok(code) => show(&code),
        Err(code) => panic!("error {} in {:?}", code, source),
    }
}

#[test]
fn whitespace_is_the_unicode_property() {
    for u in 0..0x11_0000u32 {
        if let Some(c) = char::from_u32(u) {
            assert_eq!(is_whitespace(c), c.is_whitespace(), "U+{:04X}", u);
        }
    }
}

#[test]
fn lexemes_carry_line_and_place() {
    let lexemes = split_lexemes("  + 2\t3\n\n.  ~x\u{3000}é\r\n ; ");
    let seen: Vec<(String, usize, usize)> =
        lexemes.iter().map(|l| (l.text.clone(), l.line, l.column)).collect();
    let expected = [
        ("+", 0, 0),
        ("2", 0, 1),
        ("3", 0, 2),
        (".", 2, 0),
        ("~x", 2, 1),
        ("é", 2, 2),
        (";", 3, 0),
    ];
    assert_eq!(seen.len(), expected.len());
    for (s, e) in seen.iter().zip(expected.iter()) {
        assert_eq!((s.0.as_str(), s.1, s.2), *e);
    }
    assert!(lexemes.iter().all(|l| l.number.is_none()));
    assert!(split_lexemes("").is_empty());
    assert!(split_lexemes(" \n \t").is_empty());
    assert_eq!(split_lexemes("abc").len(), 1);
}

#[test]
fn characters_and_strings_round_trip() {
    let chars = to_chars("héllo wörld");
    assert_eq!(chars.len(), 11);
    assert_eq!(chars[1], 'é');
    assert_eq!(string_of(&chars, 0, 5), "héllo");
    assert_eq!(string_of(&chars, 6, 11), "wörld");
    assert_eq!(string_of(&chars, 3, 3), "");
    assert_eq!(string_of(&chars, 5, 3), "");
    assert_eq!(string_of(&chars, 3, 50), "");
}

#[test]
fn escapes_are_read_as_characters() {
    let chars = to_chars("a\\s\\n\\r\\\\\\qz\\");
    assert_eq!(read_char(&chars, 0).ok(), Some(('a' as usize, 1)));
    assert_eq!(read_char(&chars, 1).ok(), Some((' ' as usize, 3)));
    assert_eq!(read_char(&chars, 3).ok(), Some(('\n' as usize, 5)));
    assert_eq!(read_char(&chars, 5).ok(), Some(('\r' as usize, 7)));
    assert_eq!(read_char(&chars, 7).ok(), Some(('\\' as usize, 9)));
    assert_eq!(read_char(&chars, 9).ok(), Some(('q' as usize, 11)));
    assert_eq!(read_char(&chars, 11).ok(), Some(('z' as usize, 12)));
    assert_eq!(read_char(&chars, 12).err().map(|e| e.code), Some(2));
    assert_eq!(read_char(&chars, 13).err().map(|e| e.code), Some(2));
}

#[test]
fn positions_are_digits_that_fit() {
    let parse = |s: &str| parse_index(&to_chars(s), 1);
    assert_eq!(parse("~0"), Some(0));
    assert_eq!(parse("~12"), Some(12));
    assert_eq!(parse("~+7"), Some(7));
    assert_eq!(parse("~007"), Some(7));
    assert_eq!(parse("~"), None);
    assert_eq!(parse("~+"), None);
    assert_eq!(parse("~-1"), None);
    assert_eq!(parse("~1a"), None);
    assert_eq!(parse("~1.5"), None);
    assert_eq!(parse(&format!("~{}", usize::MAX)), Some(usize::MAX));
    assert_eq!(parse(&format!("~{}0", usize::MAX)), None);
    assert_eq!(parse("~18446744073709551616"), "18446744073709551616".parse::<usize>().ok());
    assert_eq!(parse("~99999999999999999999999999"), None);
}

#[test]
fn paths_split_at_dots() {
    let chars = to_chars("~a.bc.d[");
    assert_eq!(split_path(&chars, 1, 7), vec!["a", "bc", "d"]);
    assert_eq!(split_path(&chars, 1, 2), vec!["a"]);
    assert_eq!(split_path(&chars, 2, 3), vec!["", ""]);
    assert_eq!(split_path(&chars, 3, 3), vec![""]);
    assert_eq!(split_path(&chars, 5, 2), vec![""]);
}

#[test]
fn named_token_follows_the_match() {
    let chars = to_chars("g=[]a.b");
    assert!(named_token(&chars, Shape::GlobalArray, Some(false)).is_none());
    assert!(named_token(&chars, Shape::GlobalArray, None).is_none());
    match named_token(&chars, Shape::GlobalArray, Some(true)) {
        Some(Token::SPC(Special::SGA(n))) => assert_eq!(n, vec!["a", "b"]),
        other => panic!("unexpected {:?}", other),
    }
    match named_token(&to_chars("~f("), Shape::Call, Some(true)) {
        Some(Token::SPC(Special::FNC(n))) => assert_eq!(n, vec!["f"]),
        other => panic!("unexpected {:?}", other),
    }
}

#[test]
fn fixed_words_become_tokens() {
    let t = tokens("- + * / % ^ sin cos tan asin acos atan sqrt cbrt == ! > < || && . ,");
    let commands: Vec<String> = t
        .iter()
        .map(|t| match t {
            Token::CMD(c) => format!("{:?}", c),
            other => panic!("unexpected {:?}", other),
        })
        .collect();
    assert_eq!(
        commands.join(" "),
        "SUB ADD MUL DIV MOD POW SIN COS TAN ASN ACS ATN SQT CBT EQU NOT GTH LTH ORR AND PNT PTC"
    );
    let t = tokens("if else for forin while break return");
    let flows: Vec<String> = t
        .iter()
        .map(|t| match t {
            Token::CFL(c) => format!("{:?}", c),
            other => panic!("unexpected {:?}", other),
        })
        .collect();
    assert_eq!(flows.join(" "), "IFF ELS FOR FRN WHL BRK RTN");
    let t = tokens("{ } [ ] ( ) ; ~ |");
    let marks: Vec<String> = t
        .iter()
        .map(|t| match t {
            Token::SPC(s) => format!("{:?}", s),
            other => panic!("unexpected {:?}", other),
        })
        .collect();
    assert_eq!(marks.join(" "), "OPB CLB OPS CLS OPR CLR RMB BUF PIP");
    let t = tokens("buf arr fun scp non");
    let types: Vec<String> = t
        .iter()
        .map(|t| match t {
            Token::TYP(c) => format!("{:?}", c),
            other => panic!("unexpected {:?}", other),
        })
        .collect();
    assert_eq!(types.join(" "), "BUF ARR FUN SCP NUL");
}

#[test]
fn numbers_become_literals() {
    let t = tokens("pi 2 -3.5 1e3 inf");
    let values: Vec<f32> = t
        .iter()
        .map(|t| match t {
            Token::NUM(b) => f32::from_bits(*b),
            other => panic!("unexpected {:?}", other),
        })
        .collect();
    assert_eq!(values, vec![std::f32::consts::PI, 2.0, -3.5, 1000.0, f32::INFINITY]);
    assert!(matches!(tokens("nan")[0], Token::NUM(b) if f32::from_bits(b).is_nan()));
}

#[test]
fn sigils_give_reads_and_binders() {
    let t = tokens("~x ~a.b ~a.b[ ~f( ~3 =x =a.b =[]v =()f =||s g=x g=[]v l=x.y l=[]v");
    let seen: Vec<String> = t
        .iter()
        .map(|t| match t {
            Token::SPC(Special::GNB(n)) => format!("GNB {}", n.join("/")),
            Token::SPC(Special::GIA(n)) => format!("GIA {}", n.join("/")),
            Token::SPC(Special::FNC(n)) => format!("FNC {}", n.join("/")),
            Token::SPC(Special::IBF(i)) => format!("IBF {}", i),
            Token::SPC(Special::SNB(n)) => format!("SNB {}", n.join("/")),
            Token::SPC(Special::SNA(n)) => format!("SNA {}", n.join("/")),
            Token::SPC(Special::SNF(n)) => format!("SNF {}", n.join("/")),
            Token::SPC(Special::SNS(n)) => format!("SNS {}", n.join("/")),
            Token::SPC(Special::SGB(n)) => format!("SGB {}", n.join("/")),
            Token::SPC(Special::SGA(n)) => format!("SGA {}", n.join("/")),
            Token::SPC(Special::SLB(n)) => format!("SLB {}", n.join("/")),
            Token::SPC(Special::SLA(n)) => format!("SLA {}", n.join("/")),
            other => panic!("unexpected {:?}", other),
        })
        .collect();
    assert_eq!(
        seen,
        vec![
            "GNB x", "GNB a/b", "GIA a/b", "FNC f", "IBF 3", "SNB x", "SNB a/b", "SNA v", "SNF f", "SNS s",
            "SGB x", "SGA v", "SLB x/y", "SLA v",
        ]
    );
    match &tokens("~99999999999999999999999999")[0] {
        Token::SPC(Special::GNB(n)) => assert_eq!(n, &vec!["99999999999999999999999999"]),
        other => panic!("unexpected {:?}", other),
    }
    match &tokens("~größe_2")[0] {
        Token::SPC(Special::GNB(n)) => assert_eq!(n, &vec!["größe_2"]),
        other => panic!("unexpected {:?}", other),
    }
}

#[test]
fn strings_and_characters_become_numbers() {
    let codes = |source: &str| -> Vec<f32> {
        tokens(source)
            .iter()
            .map(|t| match t {
                Token::NUM(b) => f32::from_bits(*b),
                other => panic!("unexpected {:?}", other),
            })
            .collect()
    };
    assert_eq!(codes("\"Hi\\s!"), vec![72.0, 105.0, 32.0, 33.0]);
    assert_eq!(codes("\""), Vec::<f32>::new());
    assert_eq!(codes("'a"), vec![97.0]);
    assert_eq!(codes("'\\n"), vec![10.0]);
    assert_eq!(codes("'\u{10ffff}"), vec![1_114_111.0]);
    assert_eq!(codes("\"é"), vec![233.0]);
    assert_eq!(error_of("\"ab\\"), Some(2));
    assert_eq!(error_of("'"), Some(2));
    assert_eq!(error_of("'ab"), Some(2));
    assert_eq!(error_of("'\\"), Some(2));
}

#[test]
fn other_lexemes_are_refused() {
    for source in [
        "~a-b", "~a..b", "~.a", "~a.", "~a[b", "=", "=[]", "=a[", "=(a", "g", "gx", "g=", "g=()f", "l=", "l=||s",
        "hello", "&", "=||", "~(", "@", "1 2 ?",
    ] {
        assert_eq!(error_of(source), Some(2), "{:?}", source);
    }
    let mut out = Vec::new();
    let lexeme = Lexeme { text: "hello".to_string(), line: 3, column: 4, number: None };
    match classify(&lexeme, &mut out) {
        Err(e) => {
            assert_eq!(e.code, 2);
            assert_eq!(e.message, "Unrecognized token at line 3, char 4");
        }
        Ok(()) => panic!("a word became a token"),
    }
    assert!(out.is_empty());
    let lexeme = Lexeme { text: "hello".to_string(), line: 0, column: 0, number: Some(7) };
    assert!(classify(&lexeme, &mut out).is_ok());
    assert!(matches!(out[0], Token::NUM(7)));
}

#[test]
fn commands_give_empty_writers() {
    match Command::MOD.instruction() {
        Instruction::Binary(b) => {
            assert!(matches!(b.op, BinaryKind::Rem));
            assert!(b.left.is_none() && b.right.is_none());
        }
        _ => panic!("a binary command gave a unary writer"),
    }
    match Command::PTC.instruction() {
        Instruction::Unary(u) => {
            assert!(matches!(u.op, UnaryKind::PrintChar));
            assert!(u.value.is_none());
        }
        _ => panic!("a unary command gave a binary writer"),
    }
}

#[test]
fn expressions_are_stored_last_first() {
    assert_eq!(built("+ 2 * 3 4 5", Some(1)), vec!["4", "3", "Mul", "2", "Add"]);
    assert_eq!(built("+ 2 * 3 4 5", None), vec!["4", "3", "Mul", "2", "Add"]);
    assert_eq!(build("+ 2 * 3 4 5", Some(1)).1, 1);
    assert_eq!(built("7 8", Some(1)), vec!["7"]);
    assert_eq!(built("7 8", None), vec!["7"]);
    assert_eq!(built("7 8 9", Some(2)), vec!["8", "7"]);
    assert_eq!(built("; 7", None), vec!["drop"]);
    assert_eq!(built("; 7", Some(1)), vec!["7", "drop"]);
    assert_eq!(built("", Some(1)), Vec::<String>::new());
    assert_eq!(built("+ 2", Some(1)), vec!["2", "Add"]);
    assert_eq!(built("7 8", Some(0)), vec!["7"]);
    assert_eq!(built("sin ~x 3", None), vec!["read(x)", "Sin"]);
    assert_eq!(built("=x + 1 ~ 9", None), vec!["top", "1", "Add", "bind(x)"]);
}

#[test]
fn function_binder_takes_up_to_the_next_value() {
    assert_eq!(
        built("=()f ( =a ) buf ~a 5 6", None),
        vec!["5", "function([\"BUF a\"],BUF,[\"read(a)\"])", "bind()(f)"]
    );
}

#[test]
fn brackets_read_to_their_closer() {
    assert_eq!(built("[ 1 + 2 3 ] 9", None), vec!["array([[\"1\"], [\"3\", \"2\", \"Add\"]])"]);
    assert_eq!(built("[ ]", None), vec!["array([])"]);
    assert_eq!(built("{ . 1 ; } 9", None), vec!["block([[\"drop\"], [\"1\", \"PrintNumber\"]])"]);
    assert_eq!(built("~f( 1 2 ) 9", Some(1)), vec!["call(f,[[\"2\"], [\"1\"]])"]);
    assert_eq!(built("~a[ 1 ] 9", None), vec!["index(a,[\"1\"])"]);
    assert_eq!(built("~a.b[ 1 2 ] 9", None), vec!["long(a.b,[[\"2\"], [\"1\"]])"]);
    assert_eq!(built("[ 1", None), vec!["array([[\"1\"]])"]);
    assert_eq!(build("[ 1 + ]", None).0.err(), Some(3));
    assert_eq!(build("}", None).0.err(), Some(3));
    assert_eq!(build("]", None).0.err(), Some(3));
    assert_eq!(build(")", None).0.err(), Some(2));
    assert_eq!(build("buf", None).0.err(), Some(2));
    assert_eq!(build("else", None).0.err(), Some(3));
}

#[test]
fn control_constructs_read_their_parts() {
    assert_eq!(built("if > 3 2 { 1 } 9", None), vec!["if([\"2\", \"3\", \"Greater\"],[\"block([[\\\"1\\\"]])\"])"]);
    assert_eq!(
        built("if 1 2 else 3 9", None),
        vec!["ifelse([\"1\"],[\"2\"],[\"3\"])"]
    );
    assert_eq!(built("for =i 5 ~i 9", None), vec!["for([\"5\"],Some(\"i\"),[\"read(i)\"])"]);
    assert_eq!(built("for 5 ~i 9", None), vec!["for([\"5\"],None,[\"read(i)\"])"]);
    assert_eq!(built("forin =v ~a ~v", None), vec!["forin([\"read(a)\"],Some(\"v\"),[\"read(v)\"])"]);
    assert_eq!(built("while ~c ;", None), vec!["while([\"read(c)\"],[\"drop\"])"]);
    assert_eq!(built("break 1", None), vec!["break"]);
    assert_eq!(built("return 1", Some(1)), vec!["1", "return"]);
    assert_eq!(build("for =a.b 5 ~i", None).0.err(), Some(3));
    assert_eq!(build("forin =a.b ~x ~i", None).0.err(), Some(3));
    assert_eq!(build("if ) 1", None).0.err(), Some(2));
    assert_eq!(build("while 1 }", None).0.err(), Some(3));
}

#[test]
fn read_token_needs_a_token() {
    let mut none: Vec<Token> = Vec::new();
    assert_eq!(read_token(&mut none).err().map(|e| e.code), Some(usize::MAX));
    let mut one = vec![Token::CFL(ControlFlow::BRK)];
    assert!(matches!(read_token(&mut one), Ok(CreateDirective::BREAK())));
    assert!(one.is_empty());
}

#[test]
fn function_literals_have_typed_parameters() {
    let mut t = stack("=a =[]b =()c =||d ) arr + ~a 1 9");
    let f = read_function(&mut t).ok().expect("a function");
    let params: Vec<String> = f.params.iter().map(|p| format!("{:?} {}", p.0, p.1)).collect();
    assert_eq!(params, vec!["BUF a", "ARR b", "FUN c", "SCP d"]);
    assert!(matches!(f.returntype, CreateType::ARR));
    assert_eq!(show(&f.mutbuffer), vec!["1", "read(a)", "Add"]);
    assert_eq!(t.len(), 1);

    let errors = [("=a 1 ) buf 1", 3), ("=a.b ) buf 1", 3), ("=a )", 2), ("=a ) 1 1", 3), ("=a ) buf }", 3)];
    for (source, code) in errors {
        let mut t = stack(source);
        assert_eq!(read_function(&mut t).err().map(|e| e.code), Some(code), "{:?}", source);
    }
    let mut t = stack("=a");
    assert_eq!(read_function(&mut t).err().map(|e| e.code), Some(2));
}

#[test]
fn scope_literals_have_typed_fields() {
    let mut t = stack("=x + 1 2 =[]v [ ] =x 5 | 9");
    let p = read_scope(&mut t).ok().expect("a scope");
    let fields: Vec<String> =
        p.mutbuffers.iter().map(|f| format!("{} {:?} {:?}", f.0, f.1, show(&f.2))).collect();
    assert_eq!(fields, vec!["x BUF [\"5\"]", "v ARR [\"array([])\"]"]);
    assert_eq!(t.len(), 1);

    let errors = [("=x.y 1 |", 3), ("1 |", 3), ("=x ] |", 3), ("g=x 1 |", 3)];
    for (source, code) in errors {
        let mut t = stack(source);
        assert_eq!(read_scope(&mut t).err().map(|e| e.code), Some(code), "{:?}", source);
    }
    let mut t = stack("=x 1");
    assert_eq!(read_scope(&mut t).ok().map(|p| p.mutbuffers.len()), Some(1));
}

#[test]
fn prototype_replaces_a_redeclared_field() {
    let mut p = ScopePrototype::new();
    p.insert("a".to_string(), MutableBuffer::new(), CreateType::BUF);
    p.insert("b".to_string(), MutableBuffer::new(), CreateType::ARR);
    p.insert("a".to_string(), MutableBuffer::new_from(vec![CreateDirective::BREAK()]), CreateType::FUN);
    assert_eq!(p.mutbuffers.len(), 2);
    assert_eq!(p.mutbuffers[0].0, "a");
    assert!(matches!(p.mutbuffers[0].1, CreateType::FUN));
    assert_eq!(p.mutbuffers[0].2.len(), 1);
    assert_eq!(p.mutbuffers[1].0, "b");
}

#[test]
fn right_hand_side_is_cut_from_the_directives() {
    let code = match build("=x + 1 2 . 3 9", Some(3)).0 {
        Ok(code) => code,
        Err(code) => panic!("error {}", code),
    };
    assert_eq!(show(&code), vec!["9", "3", "PrintNumber", "2", "1", "Add", "bind(x)"]);
    assert_eq!(read_mutable_buffer_tokenless(&code, 0, 6), 3);
    assert_eq!(read_mutable_buffer_tokenless(&code, 0, 3), 2);
    assert_eq!(read_mutable_buffer_tokenless(&code, 0, 1), 1);
    assert_eq!(read_mutable_buffer_tokenless(&code, 0, 0), 0);
    assert_eq!(read_mutable_buffer_tokenless(&code, 5, 6), 1);
    assert_eq!(read_mutable_buffer_tokenless(&code, 2, 1), 0);
    assert_eq!(read_mutable_buffer_tokenless(&code, 0, 8), 0);
}

#[test]
fn shared_expressions_are_the_same_expression() {
    let code = MutableBuffer::new_from(vec![CreateDirective::WRITE_BUF(1), CreateDirective::READ_BUF()]);
    let other = code.share();
    assert_eq!(other.len(), 2);
    assert!(matches!(other.get(0), CreateDirective::WRITE_BUF(1)));
    assert!(matches!(code.get(1), CreateDirective::READ_BUF()));
    assert!(std::rc::Rc::ptr_eq(&code.0, &other.0));
    let reversed = reverse_codes(vec![MutableBuffer::new(), code, other]);
    assert_eq!(reversed.iter().map(|m| m.len()).collect::<Vec<_>>(), vec![2, 2, 0]);
}
